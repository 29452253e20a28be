//! Text and bytes.

use vstd::prelude::*;
use vstd::utf8::{decode_utf8, valid_utf8};

verus! {

/// The text of bytes that need not be UTF-8, with what cannot be read replaced.
pub uninterp spec fn lossy(bytes: Seq<u8>) -> Seq<char>;

/// `String::from_utf8_lossy`: the text depends on the bytes alone, and bytes
/// that are UTF-8 give the text that they encode. How bytes that are not UTF-8
/// are replaced is left to the name.
#[verifier::external_body]
pub(crate) fn lossy_text(bytes: &[u8]) -> (r: String)
    ensures
        r@ == lossy(bytes@),
        valid_utf8(bytes@) ==> r@ == decode_utf8(bytes@),
{
    String::from_utf8_lossy(bytes).into_owned()
}

/// The text of bytes: what they encode where they are UTF-8, and else that with
/// what cannot be read replaced.
pub open spec fn text_of(bytes: Seq<u8>) -> Seq<char> {
    if valid_utf8(bytes) {
        decode_utf8(bytes)
    } else {
        lossy(bytes)
    }
}

/// The letter for six bits in base64: `A` to `Z`, `a` to `z`, the digits, `+`
/// and `/`.
pub open spec fn base64_letter(n: int) -> char {
    if n < 26 {
        ('A' as int + n) as char
    } else if n < 52 {
        ('a' as int + n - 26) as char
    } else if n < 62 {
        ('0' as int + n - 52) as char
    } else if n == 62 {
        '+'
    } else {
        '/'
    }
}

/// The bytes in base64, padded with `=`: three bytes make four letters.
pub open spec fn base64(b: Seq<u8>) -> Seq<char>
    decreases b.len(),
{
    if b.len() == 0 {
        Seq::empty()
    } else {
        let b0 = b[0] as int;
        let b1 = if b.len() > 1 {
            b[1] as int
        } else {
            0
        };
        let b2 = if b.len() > 2 {
            b[2] as int
        } else {
            0
        };
        let c2 = if b.len() > 1 {
            base64_letter(b1 % 16 * 4 + b2 / 64)
        } else {
            '='
        };
        let c3 = if b.len() > 2 {
            base64_letter(b2 % 64)
        } else {
            '='
        };
        seq![base64_letter(b0 / 4), base64_letter(b0 % 4 * 16 + b1 / 16), c2, c3] + (if b.len()
            > 3 {
            base64(b.skip(3))
        } else {
            Seq::empty()
        })
    }
}

/// `base64::engine::general_purpose::STANDARD.encode`: the standard alphabet,
/// padded. The encoded text has to fit in memory, which the engine would panic
/// over.
#[verifier::external_body]
pub(crate) fn base64_text(bytes: &[u8]) -> (r: String)
    requires
        (bytes@.len() + 2) / 3 * 4 <= isize::MAX,
    ensures
        r@ == base64(bytes@),
{
    base64::Engine::encode(&base64::engine::general_purpose::STANDARD, bytes)
}

} // verus!
