//! Bytes of unknown character encoding, read as text.

use vstd::prelude::*;
use crate::grammar::{file_at, fragment_at, Parsed};
use crate::grid::{TextGrid, TierView};
use crate::parse::{parse_text, ParseError};

verus! {

/// The text that `bytes` stand for in the character encoding that their
/// content suggests.
pub uninterp spec fn detected_text(bytes: Seq<u8>) -> Seq<char>;

/// Guesses the character encoding of `bytes` and decodes them in it.
///
/// The guess is that of chardetng's `EncodingDetector`: a detector from
/// `EncodingDetector::new` is given all of `bytes` as the whole stream by
/// `feed`, and asked by `guess` with no domain name and with UTF-8 allowed.
/// The text is what `Encoding::decode` of the guessed encoding gives for the
/// same bytes, which it does for every input: a byte order mark is honoured
/// and removed, and malformed sequences become replacement characters.
/// Both depend on the bytes alone, which is all that is claimed here.
/// `decode` sizes its buffer at about three times the input, rounded up to
/// a power of two, and panics where that does not fit: such inputs are left out.
#[verifier::external_body]
fn decode_bytes(bytes: &[u8]) -> (text: String)
    requires
        bytes@.len() <= usize::MAX / 8,
    ensures
        text@ == detected_text(bytes@),
{
    let mut detector = chardetng::EncodingDetector::new();
    detector.feed(bytes, true);
    let encoding = detector.guess(None, true);
    let (decoded, _, _) = encoding.decode(bytes);
    decoded.into_owned()
}

/// Reads the bytes of a file as an annotation.
///
/// The character encoding is guessed from the bytes; the text that they
/// stand for in it is read as `parse_text` reads it. The decoded text must
/// fit in memory, for which the bytes may fill an eighth of the address
/// space.
pub fn parse_textgrid(bytes: &[u8]) -> (r: Result<TextGrid, ParseError>)
    requires
        bytes@.len() <= usize::MAX / 8,
    ensures
        match r {
            Ok(tg) => file_at(detected_text(bytes@)) == (Parsed::Done {
                value: tg@,
                end: detected_text(bytes@).len() as int,
            }),
            Err(e) => file_at(detected_text(bytes@)) == (Parsed::<Seq<TierView>>::Failed {
                kind: e.kind,
                at: e.position as int,
            }) && e.position <= detected_text(bytes@).len() && e.fragment@ == fragment_at(
                detected_text(bytes@),
                e.position as int,
            ),
        },
{
    let text = decode_bytes(bytes);
    parse_text(text.as_str())
}

} // verus!
