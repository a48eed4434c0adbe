use vstd::prelude::*;

verus! {

/// The character that stands for a nibble in lowercase hexadecimal.
pub open spec fn hex_char(v: int) -> char {
    if v < 10 {
        ((v + 48) as u8) as char
    } else {
        ((v + 87) as u8) as char
    }
}

/// Whether `c` is a digit of lowercase hexadecimal.
pub open spec fn is_lower_hex_char(c: char) -> bool {
    ('0' <= c && c <= '9') || ('a' <= c && c <= 'f')
}

/// The nibble value of a lowercase hexadecimal digit.
pub open spec fn hex_value(c: char) -> int {
    if '0' <= c && c <= '9' {
        c as int - 48
    } else {
        c as int - 87
    }
}

/// The lowercase hexadecimal text of `b`: two digits per octet, high nibble first.
pub open spec fn hex_lower(b: Seq<u8>) -> Seq<char> {
    Seq::new(
        2 * b.len(),
        |i: int|
            if i % 2 == 0 {
                hex_char(b[i / 2] as int / 16)
            } else {
                hex_char(b[i / 2] as int % 16)
            },
    )
}

/// Whether `s` is the textual form of a digest: 64 lowercase hexadecimal digits.
pub open spec fn is_digest_text(s: Seq<char>) -> bool {
    s.len() == 64 && forall|i: int| 0 <= i < s.len() ==> is_lower_hex_char(#[trigger] s[i])
}

/// The octets that a text of lowercase hexadecimal digits denotes, two digits each.
pub open spec fn hex_decode(s: Seq<char>) -> Seq<u8> {
    Seq::new(
        s.len() / 2,
        |i: int| (hex_value(s[2 * i]) * 16 + hex_value(s[2 * i + 1])) as u8,
    )
}

/// Encoding 32 octets gives a digest text, and decoding that text gives the
/// octets back: `from_hex` accepts what `to_hex` writes and returns the same digest.
pub proof fn lemma_hex_round_trip_bytes(a: Seq<u8>)
    requires
        a.len() == 32,
    ensures
        is_digest_text(hex_lower(a)),
        hex_decode(hex_lower(a)) == a,
{
    let s = hex_lower(a);
    assert forall|i: int| 0 <= i < s.len() implies is_lower_hex_char(#[trigger] s[i]) by {
        lemma_hex_char_is_digit(a[i / 2] as int / 16);
        lemma_hex_char_is_digit(a[i / 2] as int % 16);
    }
    assert forall|i: int| 0 <= i < 32 implies #[trigger] hex_decode(s)[i] == a[i] by {
        let hi = a[i] as int / 16;
        let lo = a[i] as int % 16;
        assert((2 * i) % 2 == 0 && (2 * i) / 2 == i);
        assert((2 * i + 1) % 2 == 1 && (2 * i + 1) / 2 == i);
        lemma_hex_value_of_char(hi);
        lemma_hex_value_of_char(lo);
        assert(hi * 16 + lo == a[i] as int);
    }
    assert(hex_decode(s) =~= a);
}

/// Decoding a digest text gives 32 octets whose encoding is that same text:
/// `to_hex` of what `from_hex` returns gives the parsed text back.
pub proof fn lemma_hex_round_trip_text(s: Seq<char>)
    requires
        is_digest_text(s),
    ensures
        hex_decode(s).len() == 32,
        hex_lower(hex_decode(s)) == s,
{
    let b = hex_decode(s);
    assert forall|i: int| 0 <= i < 64 implies #[trigger] hex_lower(b)[i] == s[i] by {
        let k = i / 2;
        let hi = hex_value(s[2 * k]);
        let lo = hex_value(s[2 * k + 1]);
        assert(is_lower_hex_char(s[2 * k]) && is_lower_hex_char(s[2 * k + 1]));
        assert(0 <= hi < 16 && 0 <= lo < 16);
        assert(b[k] as int == hi * 16 + lo);
        assert((hi * 16 + lo) / 16 == hi && (hi * 16 + lo) % 16 == lo) by (nonlinear_arith)
            requires
                0 <= hi < 16,
                0 <= lo < 16,
        ;
        lemma_char_of_hex_value(s[2 * k]);
        lemma_char_of_hex_value(s[2 * k + 1]);
    }
    assert(hex_lower(b) =~= s);
}

proof fn lemma_hex_char_is_digit(v: int)
    requires
        0 <= v < 16,
    ensures
        is_lower_hex_char(hex_char(v)),
{
}

proof fn lemma_hex_value_of_char(v: int)
    requires
        0 <= v < 16,
    ensures
        hex_value(hex_char(v)) == v,
{
}

proof fn lemma_char_of_hex_value(c: char)
    requires
        is_lower_hex_char(c),
    ensures
        hex_char(hex_value(c)) == c,
{
}

/// The SHA-256 digest of `data`.
pub uninterp spec fn sha256_of(data: Seq<u8>) -> Seq<u8>;

/// Why a text is not the textual form of a digest.
#[derive(Debug, Clone, Copy, PartialEq, Eq)]
pub enum DigestParseError {
    /// The text does not hold exactly 64 characters.
    InvalidLength,
    /// The text holds a character that is not a lowercase hexadecimal digit.
    InvalidCharacter,
}

/// A SHA-256 digest: 32 octets, ordered lexicographically.
#[derive(Debug, Clone, Copy, PartialEq, Eq, PartialOrd, Ord, Hash, Default)]
pub struct Sha256Hash {
    inner: [u8; 32],
}

impl View for Sha256Hash {
    type V = Seq<u8>;

    closed spec fn view(&self) -> Seq<u8> {
        self.inner@
    }
}

/// The error of hex's decoding functions, carried through opaque.
#[verifier::external_type_specification]
#[verifier::external_body]
pub struct ExFromHexError(hex::FromHexError);

/// Relies on hex::encode: two lowercase digits per octet, high nibble first.
#[verifier::external_body]
fn encode_hex(b: &[u8; 32]) -> (r: String)
    ensures
        r@ == hex_lower(b@),
{
    hex::encode(b)
}

/// Relies on hex::decode_to_slice: on a text of 64 hexadecimal digits it fills
/// the 32 octets, each from two digits, high nibble first.
#[verifier::external_body]
fn decode_hex(s: &str) -> (r: Result<[u8; 32], hex::FromHexError>)
    requires
        is_digest_text(s@),
    ensures
        r is Ok,
        r->Ok_0@ == hex_decode(s@),
{
    let mut out = [0u8; 32];
    hex::decode_to_slice(s, &mut out).map(|()| out)
}

/// Relies on sha2::Sha256::digest: the SHA-256 digest of the whole input.
#[verifier::external_body]
fn sha256(data: &[u8]) -> (r: [u8; 32])
    ensures
        r@ == sha256_of(data@),
{
    <sha2::Sha256 as sha2::Digest>::digest(data).into()
}

impl Sha256Hash {
    /// The digest that consists of the given octets.
    pub fn new(inner: [u8; 32]) -> (r: Sha256Hash)
        ensures
            r@ == inner@,
    {
        Sha256Hash { inner }
    }

    /// The octets of the digest.
    pub fn to_bytes(&self) -> (r: [u8; 32])
        ensures
            r@ == self@,
            self@.len() == 32,
    {
        self.inner
    }

    /// Whether the two digests hold the same octets.
    pub fn same_as(&self, other: &Sha256Hash) -> (r: bool)
        ensures
            r == (self@ == other@),
    {
        let mut i: usize = 0;
        while i < 32
            invariant
                i <= 32,
                forall|j: int| 0 <= j < i ==> self.inner@[j] == other.inner@[j],
            decreases 32 - i,
        {
            if self.inner[i] != other.inner[i] {
                return false;
            }
            i = i + 1;
        }
        assert(self.inner@ =~= other.inner@);
        true
    }

    /// The digest of the given content.
    pub fn of_bytes(data: &[u8]) -> (r: Sha256Hash)
        ensures
            r@ == sha256_of(data@),
    {
        Sha256Hash { inner: sha256(data) }
    }

    /// The textual form: 64 lowercase hexadecimal digits.
    pub fn to_hex(&self) -> (r: String)
        ensures
            r@ == hex_lower(self@),
            r@.len() == 64,
    {
        encode_hex(&self.inner)
    }

    /// Parses the textual form; anything but 64 lowercase hexadecimal digits is rejected.
    pub fn from_hex(s: &str) -> (r: Result<Sha256Hash, DigestParseError>)
        ensures
            r is Ok <==> is_digest_text(s@),
            r matches Ok(h) ==> h@ == hex_decode(s@),
            r matches Err(e) ==> (e == DigestParseError::InvalidLength <==> s@.len() != 64),
    {
        let n = s.unicode_len();
        if n != 64 {
            return Err(DigestParseError::InvalidLength);
        }
        let mut i: usize = 0;
        while i < n
            invariant
                n == s@.len(),
                n == 64,
                i <= n,
                forall|j: int| 0 <= j < i ==> is_lower_hex_char(#[trigger] s@[j]),
            decreases n - i,
        {
            let c = s.get_char(i);
            if !(('0' <= c && c <= '9') || ('a' <= c && c <= 'f')) {
                return Err(DigestParseError::InvalidCharacter);
            }
            i = i + 1;
        }
        match decode_hex(s) {
            Ok(inner) => Ok(Sha256Hash { inner }),
            Err(_) => Err(DigestParseError::InvalidCharacter),
        }
    }
}

} // verus!
