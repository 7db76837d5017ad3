//! The two text encodings of the wire protocol, through `encoding_rs`.
use vstd::prelude::*;
use vstd::utf8::{encode_utf8, valid_utf8};

verus! {

/// The text encoding that packets are written in on the wire.
#[derive(Clone, Copy, Debug, PartialEq, Eq, Structural)]
pub enum TextEncoding {
    Gbk,
    Utf8,
}

/// The bytes that GBK encoding gives for a text (unmappable characters are
/// written as HTML numeric character references).
pub uninterp spec fn gbk_encoded(s: Seq<char>) -> Seq<u8>;

/// The text that decoding `b` in `enc` gives, and whether any malformed
/// sequence had to be replaced on the way.
pub uninterp spec fn decoded(enc: TextEncoding, b: Seq<u8>) -> (Seq<char>, bool);

/// `t` without a leading byte order mark.
pub open spec fn without_bom(t: Seq<char>) -> Seq<char> {
    if t.len() > 0 && t[0] == '\u{feff}' {
        t.drop_first()
    } else {
        t
    }
}

/// Whether `b` opens with a UTF-16 byte order mark, which switches decoding
/// to UTF-16 whatever encoding was asked for.
pub open spec fn has_utf16_bom(b: Seq<u8>) -> bool {
    b.len() >= 2 && ((b[0] == 0xff && b[1] == 0xfe) || (b[0] == 0xfe && b[1] == 0xff))
}

/// Relies on `encoding_rs::Encoding::encode`: on `UTF_8` it hands back the
/// string's own UTF-8 bytes; on `GBK` it produces the GBK bytes of the text.
#[verifier::external_body]
pub(crate) fn encode_text(enc: TextEncoding, s: &str) -> (r: Vec<u8>)
    ensures
        enc == TextEncoding::Utf8 ==> r@ == encode_utf8(s@),
        enc == TextEncoding::Gbk ==> r@ == gbk_encoded(s@),
{
    let e = match enc {
        TextEncoding::Gbk => encoding_rs::GBK,
        TextEncoding::Utf8 => encoding_rs::UTF_8,
    };
    e.encode(s).0.into_owned()
}

/// Relies on `encoding_rs::Encoding::decode`, which sniffs a byte order mark
/// first and replaces malformed sequences, reporting whether it had to. On
/// `UTF_8`, well-formed input decodes to its characters, a leading byte order
/// mark dropped, with no error; ill-formed input without a UTF-16 byte order
/// mark reports an error.
#[verifier::external_body]
pub(crate) fn decode_text(enc: TextEncoding, b: &[u8]) -> (r: (String, bool))
    ensures
        (r.0@, r.1) == decoded(enc, b@),
        enc == TextEncoding::Utf8 ==> forall|t: Seq<char>|
            b@ == #[trigger] encode_utf8(t) ==> r.0@ == without_bom(t) && !r.1,
        enc == TextEncoding::Utf8 && !valid_utf8(b@) && !has_utf16_bom(b@) ==> r.1,
{
    let e = match enc {
        TextEncoding::Gbk => encoding_rs::GBK,
        TextEncoding::Utf8 => encoding_rs::UTF_8,
    };
    let (text, _, had_errors) = e.decode(b);
    (text.into_owned(), had_errors)
}

} // verus!
