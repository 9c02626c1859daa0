//! A validated, lowercase hex-encoded byte buffer, used as a chain key.

use vstd::prelude::*;

verus! {

/// The lowercase hexadecimal character for a nibble in `0..16`.
pub open spec fn nibble_char(n: int) -> char {
    if n == 0 {
        '0'
    } else if n == 1 {
        '1'
    } else if n == 2 {
        '2'
    } else if n == 3 {
        '3'
    } else if n == 4 {
        '4'
    } else if n == 5 {
        '5'
    } else if n == 6 {
        '6'
    } else if n == 7 {
        '7'
    } else if n == 8 {
        '8'
    } else if n == 9 {
        '9'
    } else if n == 10 {
        'a'
    } else if n == 11 {
        'b'
    } else if n == 12 {
        'c'
    } else if n == 13 {
        'd'
    } else if n == 14 {
        'e'
    } else {
        'f'
    }
}

/// The value of a lowercase hexadecimal digit character.
pub open spec fn nibble_val(c: char) -> int {
    if 48 <= c as int <= 57 {
        c as int - 48
    } else {
        c as int - 87
    }
}

/// Whether `c` is a lowercase hexadecimal digit.
pub open spec fn is_hex_digit(c: char) -> bool {
    (48 <= c as int <= 57) || (97 <= c as int <= 102)
}

/// Whether `s` is even-length lowercase hexadecimal text.
pub open spec fn is_hex_seq(s: Seq<char>) -> bool {
    s.len() % 2 == 0 && forall|i: int| 0 <= i < s.len() ==> is_hex_digit(#[trigger] s[i])
}

/// The lowercase hexadecimal text of a byte buffer: two digits per byte.
pub open spec fn hex_of(bytes: Seq<u8>) -> Seq<char> {
    Seq::new(
        2 * bytes.len(),
        |j: int|
            if j % 2 == 0 {
                nibble_char(bytes[j / 2] as int / 16)
            } else {
                nibble_char(bytes[j / 2] as int % 16)
            },
    )
}

/// The bytes denoted by even-length lowercase hexadecimal text.
pub open spec fn bytes_of_hex(s: Seq<char>) -> Seq<u8> {
    Seq::new(s.len() / 2, |i: int| (nibble_val(s[2 * i]) * 16 + nibble_val(s[2 * i + 1])) as u8)
}

/// The lowercase hexadecimal character for a nibble, as executable code.
pub fn nibble_char_exec(d: usize) -> (c: char)
    requires
        d < 16,
    ensures
        c == nibble_char(d as int),
{
    if d == 0 {
        '0'
    } else if d == 1 {
        '1'
    } else if d == 2 {
        '2'
    } else if d == 3 {
        '3'
    } else if d == 4 {
        '4'
    } else if d == 5 {
        '5'
    } else if d == 6 {
        '6'
    } else if d == 7 {
        '7'
    } else if d == 8 {
        '8'
    } else if d == 9 {
        '9'
    } else if d == 10 {
        'a'
    } else if d == 11 {
        'b'
    } else if d == 12 {
        'c'
    } else if d == 13 {
        'd'
    } else if d == 14 {
        'e'
    } else {
        'f'
    }
}

/// Whether `c` is a lowercase hexadecimal digit, as executable code.
pub fn is_hex_digit_exec(c: char) -> (r: bool)
    ensures
        r == is_hex_digit(c),
{
    ('0' <= c && c <= '9') || ('a' <= c && c <= 'f')
}

/// The value of a lowercase hexadecimal digit, as executable code.
pub fn hex_val_exec(c: char) -> (r: usize)
    requires
        is_hex_digit(c),
    ensures
        r == nibble_val(c),
{
    let u = c as u32;
    if u <= 57 {
        (u - 48) as usize
    } else {
        (u - 87) as usize
    }
}

/// A nibble's hex character is a hex digit and reads back as the nibble.
pub proof fn lemma_nibble_char_val(n: int)
    requires
        0 <= n < 16,
    ensures
        is_hex_digit(nibble_char(n)),
        nibble_val(nibble_char(n)) == n,
{
}

/// Hex text produced from bytes is valid lowercase hexadecimal.
pub proof fn lemma_hex_of_valid(bytes: Seq<u8>)
    ensures
        is_hex_seq(hex_of(bytes)),
        hex_of(bytes).len() == 2 * bytes.len(),
{
    assert forall|j: int| 0 <= j < hex_of(bytes).len() implies is_hex_digit(
        #[trigger] hex_of(bytes)[j],
    ) by {
        let b = bytes[j / 2] as int;
        assert(0 <= b / 16 < 16 && 0 <= b % 16 < 16);
        if j % 2 == 0 {
            lemma_nibble_char_val(b / 16);
        } else {
            lemma_nibble_char_val(b % 16);
        }
    }
}

/// Decoding the hex text of a byte buffer yields the buffer back.
pub proof fn lemma_hex_round_trip(bytes: Seq<u8>)
    ensures
        bytes_of_hex(hex_of(bytes)) == bytes,
{
    let h = hex_of(bytes);
    assert forall|i: int| 0 <= i < bytes_of_hex(h).len() implies bytes_of_hex(h)[i]
        == bytes[i] by {
        let b = bytes[i] as int;
        assert(h[2 * i] == nibble_char(b / 16) && h[2 * i + 1] == nibble_char(b % 16));
        lemma_nibble_char_val(b / 16);
        lemma_nibble_char_val(b % 16);
        assert((b / 16) * 16 + b % 16 == b);
    }
    assert(bytes_of_hex(h) =~= bytes);
}

/// Relies on `hex::encode`: every byte becomes exactly two lowercase
/// hexadecimal digits, in order.
#[verifier::external_body]
fn hex_encode(bytes: &[u8]) -> (r: String)
    ensures
        r@ == hex_of(bytes@),
{
    hex::encode(bytes)
}

/// Relies on `hex::decode`: on even-length lowercase hexadecimal text it
/// returns the denoted bytes, high nibble first.
#[verifier::external_body]
fn hex_decode(s: &str) -> (r: Vec<u8>)
    requires
        is_hex_seq(s@),
    ensures
        r@ == bytes_of_hex(s@),
{
    hex::decode(s).unwrap_or_default()
}

/// A wrapper for a string of lowercase hexadecimal characters.
///
/// A value can only be built from raw bytes or from text checked to be
/// valid hex, so every value decodes; adversarial input is rejected at
/// construction instead of silently coerced.
#[derive(Debug)]
pub struct HexString(String);

impl Clone for HexString {
    /// A clone is the same value.
    fn clone(&self) -> (r: Self)
        ensures
            r == *self,
    {
        proof {
            use_type_invariant(self);
        }
        HexString(self.0.clone())
    }
}

impl View for HexString {
    type V = Seq<char>;

    closed spec fn view(&self) -> Seq<char> {
        self.0@
    }
}

impl HexString {
    /// Every reachable value holds valid lowercase hexadecimal text.
    #[verifier::type_invariant]
    closed spec fn well_formed(self) -> bool {
        is_hex_seq(self.0@)
    }

    /// The bytes a hex key denotes.
    pub open spec fn bytes_spec(self) -> Seq<u8> {
        bytes_of_hex(self@)
    }

    /// Encode raw bytes as a hex key.
    pub fn from_bytes(bytes: &[u8]) -> (r: HexString)
        ensures
            r@ == hex_of(bytes@),
    {
        proof {
            lemma_hex_of_valid(bytes@);
        }
        HexString(hex_encode(bytes))
    }

    /// Accept text as a hex key only if it is valid lowercase hexadecimal
    /// of even length.
    pub fn from_text(s: String) -> (r: Option<HexString>)
        ensures
            r is Some <==> is_hex_seq(s@),
            r is Some ==> r.unwrap()@ == s@,
    {
        let n = s.as_str().unicode_len();
        if n % 2 != 0 {
            return None;
        }
        let mut i: usize = 0;
        while i < n
            invariant
                i <= n,
                n == s@.len(),
                forall|k: int| 0 <= k < i ==> is_hex_digit(#[trigger] s@[k]),
            decreases n - i,
        {
            let c = s.as_str().get_char(i);
            let u = c as u32;
            if !((48 <= u && u <= 57) || (97 <= u && u <= 102)) {
                return None;
            }
            i += 1;
        }
        Some(HexString(s))
    }

    /// The decoded bytes of this key.
    pub fn to_bytes(&self) -> (r: Vec<u8>)
        ensures
            r@ == self.bytes_spec(),
            is_hex_seq(self@),
    {
        proof {
            use_type_invariant(self);
        }
        hex_decode(self.0.as_str())
    }

    /// The hex text itself.
    pub fn to_string(&self) -> (r: String)
        ensures
            r@ == self@,
    {
        self.0.clone()
    }
}

/// The key of the canonical default chain link.
pub open spec fn default_key_text() -> Seq<char> {
    "00000000"@
}

impl Default for HexString {
    /// The default key: eight zero digits.
    fn default() -> (r: HexString)
        ensures
            r@ == default_key_text(),
    {
        proof {
            reveal_strlit("00000000");
        }
        HexString(String::from_str("00000000"))
    }
}

} // verus!
