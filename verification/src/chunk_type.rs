//! The four-byte chunk type code and its bit semantics.
//!
//! Each byte must be an ASCII letter; the case of each byte carries one flag:
//! critical/ancillary, public/private, reserved, and safe-to-copy.

use vstd::prelude::*;

use vstd::string::StringSliceAdditionalSpecFns;

use crate::error::PngError;
use crate::text::bytes_to_utf8;

verus! {

/// True for the ASCII bytes 'A' through 'Z'.
pub open spec fn is_ascii_upper(b: u8) -> bool {
    0x41 <= b && b <= 0x5a
}

/// True for the ASCII bytes 'a' through 'z'.
pub open spec fn is_ascii_lower(b: u8) -> bool {
    0x61 <= b && b <= 0x7a
}

/// True for ASCII letters of either case.
pub open spec fn is_ascii_letter(b: u8) -> bool {
    is_ascii_upper(b) || is_ascii_lower(b)
}

/// Four bytes form a well-formed chunk type when each one is an ASCII letter.
pub open spec fn type_well_formed(t: Seq<u8>) -> bool {
    t.len() == 4 && forall|i: int| 0 <= i < 4 ==> is_ascii_letter(#[trigger] t[i])
}

/// A chunk type is valid when it is well formed and its reserved byte (the
/// third) is uppercase.
pub open spec fn type_valid(t: Seq<u8>) -> bool {
    type_well_formed(t) && is_ascii_upper(t[2])
}

/// The four bytes read as characters, case preserved.
pub open spec fn type_chars(t: Seq<u8>) -> Seq<char> {
    Seq::new(t.len(), |i: int| t[i] as char)
}

/// A validated 4-byte chunk type identifier.
///
/// Construction only accepts ASCII letters; the per-byte case flags are read
/// by the predicates below. Equality is byte-exact and case-sensitive.
#[derive(Debug, Clone, Copy, PartialEq, Eq, Structural)]
pub struct ChunkType {
    ancillary_byte: u8,
    private_byte: u8,
    reserved_byte: u8,
    safe_to_copy_byte: u8,
}

impl View for ChunkType {
    type V = Seq<u8>;

    closed spec fn view(&self) -> Seq<u8> {
        seq![self.ancillary_byte, self.private_byte, self.reserved_byte, self.safe_to_copy_byte]
    }
}

/// Two chunk types are equal exactly when their four bytes are equal.
pub proof fn lemma_type_eq(a: ChunkType, b: ChunkType)
    ensures
        (a == b) <==> (a@ == b@),
{
    if a@ == b@ {
        assert(a@[0] == b@[0] && a@[1] == b@[1] && a@[2] == b@[2] && a@[3] == b@[3]);
    }
    if a == b {
        assert(a@ =~= b@);
    }
}

/// The reserved-bit rule: a four-letter type code is valid exactly when its
/// third byte is uppercase, whatever the case of the other three bytes.
pub proof fn lemma_reserved_bit_rule(t: Seq<u8>)
    requires
        type_well_formed(t),
    ensures
        type_valid(t) <==> is_ascii_upper(t[2]),
{
}

/// True exactly when `b` is an ASCII letter.
fn letter(b: u8) -> (r: bool)
    ensures
        r == is_ascii_letter(b),
{
    (0x41 <= b && b <= 0x5a) || (0x61 <= b && b <= 0x7a)
}

impl ChunkType {
    /// Every constructed chunk type holds four ASCII letters: construction
    /// only accepts them, so the invariant holds of every value.
    #[verifier::type_invariant]
    pub open spec fn wf(&self) -> bool {
        type_well_formed(self@)
    }

    /// Accepts exactly four ASCII letters; any other byte is rejected with
    /// `InvalidEncoding`.
    pub fn parse(value: [u8; 4]) -> (r: Result<ChunkType, PngError>)
        ensures
            match r {
                Ok(t) => t@ == value@ && type_well_formed(value@),
                Err(e) => e == PngError::InvalidEncoding && !type_well_formed(value@),
            },
    {
        if letter(value[0]) && letter(value[1]) && letter(value[2]) && letter(value[3]) {
            let t = ChunkType {
                ancillary_byte: value[0],
                private_byte: value[1],
                reserved_byte: value[2],
                safe_to_copy_byte: value[3],
            };
            proof {
                assert(t@ =~= value@);
            }
            Ok(t)
        } else {
            Err(PngError::InvalidEncoding)
        }
    }

    /// Accepts a string of exactly four bytes, then parses them as a chunk
    /// type. A string of any other byte length is rejected with
    /// `InvalidLength`.
    pub fn parse_str(s: &str) -> (r: Result<ChunkType, PngError>)
        ensures
            match r {
                Ok(t) => t@ == s.spec_bytes() && type_well_formed(s.spec_bytes()),
                Err(e) => (e == PngError::InvalidLength && s.spec_bytes().len() != 4) || (e
                    == PngError::InvalidEncoding && s.spec_bytes().len() == 4
                    && !type_well_formed(s.spec_bytes())),
            },
    {
        let bytes = s.as_bytes();
        if bytes.len() == 4 {
            let fixed: [u8; 4] = [bytes[0], bytes[1], bytes[2], bytes[3]];
            proof {
                assert(fixed@ =~= s.spec_bytes());
            }
            Self::parse(fixed)
        } else {
            Err(PngError::InvalidLength)
        }
    }

    /// The four raw bytes of the type code.
    pub fn bytes(&self) -> (r: [u8; 4])
        ensures
            r@ == self@,
    {
        let r = [self.ancillary_byte, self.private_byte, self.reserved_byte, self.safe_to_copy_byte];
        proof {
            assert(r@ =~= self@);
        }
        r
    }

    /// True when the type is well formed and its reserved byte is uppercase.
    pub fn is_valid(&self) -> (r: bool)
        ensures
            r == type_valid(self@),
    {
        let letters = letter(self.ancillary_byte) && letter(self.private_byte) && letter(
            self.reserved_byte,
        ) && letter(self.safe_to_copy_byte);
        let r = letters && self.is_reserved_bit_valid();
        proof {
            if letters {
                assert(forall|i: int| 0 <= i < 4 ==> is_ascii_letter(#[trigger] self@[i])) by {
                    assert(self@[0] == self.ancillary_byte && self@[1] == self.private_byte
                        && self@[2] == self.reserved_byte && self@[3] == self.safe_to_copy_byte);
                }
            }
        }
        r
    }

    /// True when the first byte is uppercase: the chunk is critical, not
    /// ancillary.
    pub fn is_critical(&self) -> (r: bool)
        ensures
            r == is_ascii_upper(self@[0]),
    {
        0x41 <= self.ancillary_byte && self.ancillary_byte <= 0x5a
    }

    /// True when the second byte is uppercase: the chunk type is public, not
    /// private.
    pub fn is_public(&self) -> (r: bool)
        ensures
            r == is_ascii_upper(self@[1]),
    {
        0x41 <= self.private_byte && self.private_byte <= 0x5a
    }

    /// True when the reserved (third) byte is uppercase, as the format
    /// demands of every currently defined type.
    pub fn is_reserved_bit_valid(&self) -> (r: bool)
        ensures
            r == is_ascii_upper(self@[2]),
    {
        0x41 <= self.reserved_byte && self.reserved_byte <= 0x5a
    }

    /// True when the fourth byte is lowercase: the chunk is safe to copy.
    pub fn is_safe_to_copy(&self) -> (r: bool)
        ensures
            r == is_ascii_lower(self@[3]),
    {
        0x61 <= self.safe_to_copy_byte && self.safe_to_copy_byte <= 0x7a
    }

    /// The display form: the exact four-character ASCII string, case
    /// preserved.
    pub fn to_string(&self) -> (r: String)
        ensures
            r@ == type_chars(self@),
    {
        proof {
            use_type_invariant(self);
        }
        let bytes: Vec<u8> = vec![
            self.ancillary_byte,
            self.private_byte,
            self.reserved_byte,
            self.safe_to_copy_byte,
        ];
        proof {
            lemma_ascii_bytes_decode(self@);
            assert(bytes@ =~= self@);
        }
        let text = bytes_to_utf8(bytes);
        match text {
            Some(s) => s,
            None => {
                proof {
                    assert(false);
                }
                String::new()
            },
        }
    }
}

/// A sequence of ASCII-letter bytes is valid UTF-8 and decodes to the same
/// bytes read as characters.
pub proof fn lemma_ascii_bytes_decode(t: Seq<u8>)
    requires
        forall|i: int| 0 <= i < t.len() ==> is_ascii_letter(#[trigger] t[i]),
    ensures
        vstd::utf8::valid_utf8(t),
        vstd::utf8::decode_utf8(t) == type_chars(t),
{
    let chars = type_chars(t);
    assert forall|i: int| 0 <= i < chars.len() implies '\0' <= #[trigger] chars[i] <= '\u{7f}' by {
        assert(is_ascii_letter(t[i]));
        assert(chars[i] == t[i] as char);
    }
    assert(vstd::utf8::is_ascii_chars(chars));
    vstd::utf8::is_ascii_chars_encode_utf8(chars);
    assert(vstd::utf8::encode_utf8(chars) =~= t);
    vstd::utf8::encode_utf8_valid_utf8(chars);
    vstd::utf8::encode_utf8_decode_utf8(chars);
}

} // verus!
