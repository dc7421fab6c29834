//! Hexadecimal text for identifiers, through the `hex` crate.

use vstd::prelude::*;
use vstd::string::StringSliceAdditionalSpecFns;
use crate::text::{decimal, decimal_text};

verus! {

/// The lowercase hex digit for a nibble.
pub open spec fn hex_digit(n: int) -> char {
    if n < 10 { (48 + n) as char } else { (87 + n) as char }
}

/// Two lowercase hex digits per byte, high nibble first.
pub open spec fn hex_lower(s: Seq<u8>) -> Seq<char>
    decreases s.len(),
{
    if s.len() == 0 {
        Seq::empty()
    } else {
        seq![hex_digit((s[0] / 16) as int), hex_digit((s[0] % 16) as int)] + hex_lower(s.drop_first())
    }
}

/// The value of a hex digit byte (either case).
pub open spec fn hex_value(c: u8) -> Option<u8> {
    if 48 <= c <= 57 {
        Some((c - 48) as u8)
    } else if 97 <= c <= 102 {
        Some((c - 87) as u8)
    } else if 65 <= c <= 70 {
        Some((c - 55) as u8)
    } else {
        None
    }
}

/// Whether `s` is an even-length run of hex digits.
pub open spec fn hex_decodable(s: Seq<u8>) -> bool {
    s.len() % 2 == 0 && forall|i: int| 0 <= i < s.len() ==> #[trigger] hex_value(s[i]) is Some
}

/// The bytes an even-length run of hex digits stands for.
pub open spec fn hex_bytes(s: Seq<u8>) -> Seq<u8> {
    Seq::new(s.len() / 2, |i: int| (hex_value(s[2 * i])->0 * 16 + hex_value(s[2 * i + 1])->0) as u8)
}

/// `hex::encode`: the bytes as lowercase hex, two digits per byte, high nibble first
/// (the crate's lowercase digit table `0123456789abcdef`).
#[verifier::external_body]
pub fn hex_encode(data: &[u8]) -> (r: String)
    ensures
        r@ == hex_lower(data@),
{
    hex::encode(data)
}

/// A hex decoding error, with the variants and fields of `hex::FromHexError`.
#[derive(Debug, Clone, Copy, PartialEq, Eq)]
pub enum HexError {
    InvalidHexCharacter { c: char, index: usize },
    OddLength,
    InvalidStringLength,
}

/// The index of the first byte of `s`, from `i` on, that is not a hex digit
/// (`s.len()` when there is none).
pub open spec fn first_non_hex(s: Seq<u8>, i: int) -> int
    decreases s.len() - i,
{
    if i >= s.len() || hex_value(s[i]) is None { i } else { first_non_hex(s, i + 1) }
}

/// The error `hex::decode` reports on bytes it cannot decode: an odd length first,
/// else the first byte that is not a hex digit, as a `char`, with its index.
pub open spec fn hex_decode_error(s: Seq<u8>) -> HexError {
    if s.len() % 2 != 0 {
        HexError::OddLength
    } else {
        let i = first_non_hex(s, 0);
        HexError::InvalidHexCharacter { c: s[i] as char, index: i as usize }
    }
}

/// `hex::decode`: an even-length string of hex digits (either case) becomes the bytes
/// it stands for. Otherwise the error (`FromHexError::from_hex` for `Vec<u8>` and the
/// crate's `val`) is `OddLength` for an odd length, else `InvalidHexCharacter` for the
/// first byte that is not a hex digit; its variant is carried over field by field.
#[verifier::external_body]
pub fn hex_decode(text: &str) -> (r: Result<Vec<u8>, HexError>)
    ensures
        r is Ok <==> hex_decodable(text.spec_bytes()),
        r matches Ok(b) ==> b@ == hex_bytes(text.spec_bytes()),
        r matches Err(e) ==> e == hex_decode_error(text.spec_bytes()),
{
    match hex::decode(text) {
        Ok(b) => Ok(b),
        Err(hex::FromHexError::InvalidHexCharacter { c, index }) => Err(HexError::InvalidHexCharacter { c, index }),
        Err(hex::FromHexError::OddLength) => Err(HexError::OddLength),
        Err(hex::FromHexError::InvalidStringLength) => Err(HexError::InvalidStringLength),
    }
}

/// The `Debug` text of a `char` (`format!("{:?}", c)`).
pub uninterp spec fn char_debug(c: char) -> Seq<char>;

/// `char`'s `Debug` text: the character quoted with `'` and escaped as
/// `char::escape_debug` does, so printable ASCII other than `'` and `\\` is
/// written as itself; the other escapes are left unsaid.
#[verifier::external_body]
pub fn char_debug_text(c: char) -> (r: String)
    ensures
        r@ == char_debug(c),
        ' ' <= c <= '~' && c != '\'' && c != '\\' ==> r@ == seq!['\'', c, '\''],
{
    format!("{:?}", c)
}

/// The `Display` text of a hex error, as the `hex` crate writes it.
pub open spec fn hex_error_display(e: HexError) -> Seq<char> {
    match e {
        HexError::InvalidHexCharacter { c, index } => "Invalid character "@ + char_debug(c) + " at position "@
            + decimal(index as nat),
        HexError::OddLength => "Odd number of digits"@,
        HexError::InvalidStringLength => "Invalid string length"@,
    }
}

/// The derived `Debug` text of a hex error.
pub open spec fn hex_error_debug(e: HexError) -> Seq<char> {
    match e {
        HexError::InvalidHexCharacter { c, index } => "InvalidHexCharacter { c: "@ + char_debug(c) + ", index: "@
            + decimal(index as nat) + " }"@,
        HexError::OddLength => "OddLength"@,
        HexError::InvalidStringLength => "InvalidStringLength"@,
    }
}

impl HexError {
    /// The error's `Display` text.
    pub fn display_text(&self) -> (r: String)
        ensures
            r@ == hex_error_display(*self),
    {
        match *self {
            HexError::InvalidHexCharacter { c, index } => {
                let mut r = "Invalid character ".to_string();
                let cd = char_debug_text(c);
                vstd::string::StringExecFns::append(&mut r, cd.as_str());
                vstd::string::StringExecFns::append(&mut r, " at position ");
                let d = decimal_text(index as u64);
                vstd::string::StringExecFns::append(&mut r, d.as_str());
                r
            }
            HexError::OddLength => "Odd number of digits".to_string(),
            HexError::InvalidStringLength => "Invalid string length".to_string(),
        }
    }

    /// The error's derived `Debug` text.
    pub fn debug_text(&self) -> (r: String)
        ensures
            r@ == hex_error_debug(*self),
    {
        match *self {
            HexError::InvalidHexCharacter { c, index } => {
                let mut r = "InvalidHexCharacter { c: ".to_string();
                let cd = char_debug_text(c);
                vstd::string::StringExecFns::append(&mut r, cd.as_str());
                vstd::string::StringExecFns::append(&mut r, ", index: ");
                let d = decimal_text(index as u64);
                vstd::string::StringExecFns::append(&mut r, d.as_str());
                vstd::string::StringExecFns::append(&mut r, " }");
                r
            }
            HexError::OddLength => "OddLength".to_string(),
            HexError::InvalidStringLength => "InvalidStringLength".to_string(),
        }
    }
}

/// Lowercase hex has two digits per byte, high nibble first.
pub proof fn lemma_hex_lower_digits(s: Seq<u8>)
    ensures
        hex_lower(s).len() == 2 * s.len(),
        forall|i: int| 0 <= i < s.len() ==> #[trigger] hex_lower(s)[2 * i] == hex_digit((s[i] / 16) as int)
            && hex_lower(s)[2 * i + 1] == hex_digit((s[i] % 16) as int),
    decreases s.len(),
{
    if s.len() > 0 {
        lemma_hex_lower_digits(s.drop_first());
        let h = hex_lower(s);
        let t = hex_lower(s.drop_first());
        assert forall|i: int| 0 <= i < s.len() implies #[trigger] h[2 * i] == hex_digit((s[i] / 16) as int)
            && h[2 * i + 1] == hex_digit((s[i] % 16) as int) by {
            if i > 0 {
                assert(s.drop_first()[i - 1] == s[i]);
                assert(h[2 * i] == t[2 * (i - 1)]);
                assert(h[2 * i + 1] == t[2 * (i - 1) + 1]);
            }
        }
    }
}

/// Lowercase hex is ASCII text holding only the digits `0-9` and `a-f`, and its
/// UTF-8 bytes decode back to the original bytes.
pub proof fn lemma_hex_lower_decodes(s: Seq<u8>)
    ensures
        vstd::utf8::is_ascii_chars(hex_lower(s)),
        forall|i: int| 0 <= i < hex_lower(s).len() ==> {
            let c = #[trigger] hex_lower(s)[i];
            ('0' <= c <= '9') || ('a' <= c <= 'f')
        },
        hex_decodable(vstd::utf8::encode_utf8(hex_lower(s))),
        hex_bytes(vstd::utf8::encode_utf8(hex_lower(s))) == s,
{
    lemma_hex_lower_digits(s);
    let h = hex_lower(s);
    assert forall|i: int| 0 <= i < h.len() implies {
        let c = #[trigger] h[i];
        ('0' <= c <= '9') || ('a' <= c <= 'f')
    } by {
        let k = i / 2;
        assert(0 <= k < s.len());
        if i % 2 == 0 {
            assert(i == 2 * k);
            assert(h[2 * k] == hex_digit((s[k] / 16) as int));
        } else {
            assert(i == 2 * k + 1);
            assert(h[2 * k] == hex_digit((s[k] / 16) as int));
        }
    }
    assert(vstd::utf8::is_ascii_chars(h)) by {
        assert forall|i: int| 0 <= i < h.len() implies '\0' <= #[trigger] h[i] <= '\u{7f}' by {
            let c = h[i];
            assert(('0' <= c <= '9') || ('a' <= c <= 'f'));
        }
    }
    vstd::utf8::is_ascii_chars_encode_utf8(h);
    let b = vstd::utf8::encode_utf8(h);
    assert forall|i: int| 0 <= i < b.len() implies #[trigger] hex_value(b[i]) is Some by {
        assert(h[i] as u8 == b[i]);
        let c = h[i];
        assert(('0' <= c <= '9') || ('a' <= c <= 'f'));
    }
    assert forall|k: int| 0 <= k < s.len() implies #[trigger] hex_bytes(b)[k] == s[k] by {
        assert(h[2 * k] as u8 == b[2 * k]);
        assert(h[2 * k + 1] as u8 == b[2 * k + 1]);
        let hi = (s[k] / 16) as int;
        let lo = (s[k] % 16) as int;
        assert(hex_value(b[2 * k]) == Some(hi as u8));
        assert(hex_value(b[2 * k + 1]) == Some(lo as u8));
        assert(hex_bytes(b)[k] == (hi * 16 + lo) as u8);
    }
    assert(hex_bytes(b) =~= s);
}

} // verus!
