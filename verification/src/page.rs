//! The text of a page as the Chamber serves it.

use vstd::prelude::*;

verus! {

/// The text of a page that is taken for Windows-1252.
pub uninterp spec fn windows_1252_text(raw: Seq<u8>) -> Seq<char>;

/// Whether the bytes start with the mark of another encoding.
pub open spec fn marked(raw: Seq<u8>) -> bool {
    ||| raw.len() >= 3 && raw[0] == 0xef && raw[1] == 0xbb && raw[2] == 0xbf
    ||| raw.len() >= 2 && raw[0] == 0xff && raw[1] == 0xfe
    ||| raw.len() >= 2 && raw[0] == 0xfe && raw[1] == 0xff
}

/// The characters that stand at the bytes `0x80` to `0x9f` in Windows-1252.
pub open spec fn upper_controls() -> Seq<char> {
    seq![
        '\u{20ac}', '\u{81}', '\u{201a}', '\u{192}', '\u{201e}', '\u{2026}', '\u{2020}', '\u{2021}',
        '\u{2c6}', '\u{2030}', '\u{160}', '\u{2039}', '\u{152}', '\u{8d}', '\u{17d}', '\u{8f}',
        '\u{90}', '\u{2018}', '\u{2019}', '\u{201c}', '\u{201d}', '\u{2022}', '\u{2013}', '\u{2014}',
        '\u{2dc}', '\u{2122}', '\u{161}', '\u{203a}', '\u{153}', '\u{9d}', '\u{17e}', '\u{178}',
    ]
}

/// The character that a byte stands for in Windows-1252.
pub open spec fn windows_1252_char(byte: u8) -> char {
    if 0x80 <= byte < 0xa0 {
        upper_controls()[byte - 0x80]
    } else {
        byte as char
    }
}

/// The text of a page: `encoding_rs::Encoding::decode` on `encoding_rs::WINDOWS_1252`. It is
/// a function of the bytes. Without the mark of another encoding, each byte gives the
/// character that Windows-1252 has for it. What a mark makes of the rest is not said.
#[verifier::external_body]
fn decode_windows_1252(raw: &[u8]) -> (r: String)
    requires
        raw@.len() <= isize::MAX / 8,
    ensures
        r@ == windows_1252_text(raw@),
        !marked(raw@) ==> r@ == raw@.map_values(|byte: u8| windows_1252_char(byte)),
{
    let (text, _, _) = encoding_rs::WINDOWS_1252.decode(raw);
    text.into_owned()
}

/// The text of a page as the Chamber serves it.
pub fn page_text(raw: &[u8]) -> (r: String)
    requires
        raw@.len() <= isize::MAX / 8,
    ensures
        r@ == windows_1252_text(raw@),
        !marked(raw@) ==> r@ == raw@.map_values(|byte: u8| windows_1252_char(byte)),
{
    decode_windows_1252(raw)
}

} // verus!
