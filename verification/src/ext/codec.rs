//! Character encodings: `encoding_rs` and `chardetng`.

use crate::util::bytes::utf8_of;
use crate::util::chars::opt_text;
use vstd::prelude::*;
use vstd::utf8::encode_utf8;

verus! {

/// The name of the encoding that a label stands for; `None` where it is unknown.
pub uninterp spec fn encoding_of(label: Seq<char>) -> Option<Seq<char>>;

/// A text in an encoding, characters that it lacks written as references.
pub uninterp spec fn encoded_as(label: Seq<char>, text: Seq<char>) -> Seq<u8>;

/// The text of bytes in an encoding, and whether some of them were malformed.
pub uninterp spec fn decoded_as(label: Seq<char>, bytes: Seq<u8>) -> (Seq<char>, bool);

/// The name of the encoding that bytes look like.
pub uninterp spec fn guessed_encoding(bytes: Seq<u8>) -> Seq<char>;

/// Bytes read as UTF-8, with replacement characters for what is malformed.
pub uninterp spec fn lossy_text(bytes: Seq<u8>) -> Seq<char>;

/// Whether bytes start with the byte order mark of UTF-8.
pub open spec fn is_marked(bytes: Seq<u8>) -> bool {
    bytes.len() >= 3 && bytes[0] == 0xef && bytes[1] == 0xbb && bytes[2] == 0xbf
}

/// `encoding_rs::Encoding::for_label`, by the name of the encoding. The names of
/// the Unicode encodings are labels of them.
#[verifier::external_body]
pub(crate) fn encoding_for_label(label: &str) -> (r: Option<String>)
    ensures
        opt_text(r) == encoding_of(label@),
        label@ == "UTF-8"@ || label@ == "UTF-16LE"@ || label@ == "UTF-16BE"@ ==> opt_text(r) == Some(label@),
{
    encoding_rs::Encoding::for_label(label.as_bytes()).map(|e| e.name().to_string())
}

/// `encoding_rs::Encoding::encode` of the encoding that a label stands for; in
/// UTF-8 that gives the bytes of the text as it is.
#[verifier::external_body]
pub(crate) fn encode_text(label: &str, text: &str) -> (r: Vec<u8>)
    requires
        encoding_of(label@) is Some,
    ensures
        r@ == encoded_as(label@, text@),
        encoding_of(label@) == Some("UTF-8"@) ==> r@ == encode_utf8(text@),
{
    encoding_rs::Encoding::for_label(label.as_bytes()).unwrap().encode(text).0.into_owned()
}

/// `encoding_rs::Encoding::decode` of the encoding that a label stands for. It
/// takes a byte order mark off; in UTF-8 bytes without one that are valid are
/// read as they are.
#[verifier::external_body]
pub(crate) fn decode_text(label: &str, bytes: &Vec<u8>) -> (r: (String, bool))
    requires
        encoding_of(label@) is Some,
    ensures
        (r.0@, r.1) == decoded_as(label@, bytes@),
        encoding_of(label@) == Some("UTF-8"@) && utf8_of(bytes@) is Some && !is_marked(bytes@) ==> !r.1 && r.0@ == utf8_of(
            bytes@,
        )->0,
{
    let (text, _, malformed) = encoding_rs::Encoding::for_label(label.as_bytes()).unwrap().decode(bytes);
    (text.into_owned(), malformed)
}

/// `chardetng::EncodingDetector::guess` for all of the bytes, by the name of
/// the encoding, which is a label of it.
#[verifier::external_body]
pub(crate) fn guess_encoding(bytes: &Vec<u8>) -> (r: String)
    ensures
        r@ == guessed_encoding(bytes@),
        encoding_of(r@) is Some,
{
    let mut detector = chardetng::EncodingDetector::new();
    detector.feed(bytes, true);
    detector.guess(None, true).name().to_string()
}

/// `String::from_utf8_lossy`: valid UTF-8 is read as it is.
#[verifier::external_body]
pub(crate) fn read_lossy(bytes: &Vec<u8>) -> (r: String)
    ensures
        r@ == lossy_text(bytes@),
        utf8_of(bytes@) is Some ==> r@ == utf8_of(bytes@)->0,
{
    String::from_utf8_lossy(bytes).into_owned()
}

} // verus!
