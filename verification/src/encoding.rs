//! Base64.
use vstd::prelude::*;

verus! {

/// Whether the Base64 text of `n` bytes can be held in memory.
pub open spec fn fits_base64(n: nat) -> bool {
    (n + 2) / 3 * 4 <= isize::MAX
}

/// Whether `c` occurs in Base64 text with padding.
pub open spec fn is_base64_char(c: char) -> bool {
    'A' <= c <= 'Z' || 'a' <= c <= 'z' || '0' <= c <= '9' || c == '+' || c == '/' || c == '='
}

/// The character for six bits in the standard alphabet of Base64.
pub open spec fn base64_char(bits: int) -> char {
    if bits < 26 {
        ('A' as int + bits) as char
    } else if bits < 52 {
        ('a' as int + bits - 26) as char
    } else if bits < 62 {
        ('0' as int + bits - 52) as char
    } else if bits == 62 {
        '+'
    } else {
        '/'
    }
}

/// The Base64 text of `bytes` (RFC 4648): four characters for three bytes each, and padding where
/// one or two bytes are left.
pub open spec fn base64_text(bytes: Seq<u8>) -> Seq<char>
    decreases bytes.len(),
{
    let a = bytes[0] as int;
    let b = bytes[1] as int;
    let c = bytes[2] as int;
    if bytes.len() == 0 {
        Seq::empty()
    } else if bytes.len() == 1 {
        seq![base64_char(a / 4), base64_char(a % 4 * 16), '=', '=']
    } else if bytes.len() == 2 {
        seq![base64_char(a / 4), base64_char(a % 4 * 16 + b / 16), base64_char(b % 16 * 4), '=']
    } else {
        seq![
            base64_char(a / 4),
            base64_char(a % 4 * 16 + b / 16),
            base64_char(b % 16 * 4 + c / 64),
            base64_char(c % 64),
        ] + base64_text(bytes.skip(3))
    }
}

/// Calls `base64::encode`. It returns the Base64 text of the bytes, in the standard alphabet and
/// with padding.
///
/// `base64::encode` panics where the text would not fit in memory.
#[verifier::external_body]
pub(crate) fn base64_encode(bytes: &[u8]) -> (text: String)
    requires
        fits_base64(bytes@.len()),
    ensures
        text@ == base64_text(bytes@),
{
    base64::encode(bytes)
}

/// Base64 text is made of the characters of the alphabet and padding.
pub proof fn lemma_base64_chars(bytes: Seq<u8>)
    ensures
        forall|i: int|
            0 <= i < base64_text(bytes).len() ==> is_base64_char(#[trigger] base64_text(bytes)[i]),
    decreases bytes.len(),
{
    if bytes.len() >= 3 {
        let rest = base64_text(bytes.skip(3));
        lemma_base64_chars(bytes.skip(3));
        assert forall|i: int| 0 <= i < base64_text(bytes).len() implies is_base64_char(
            #[trigger] base64_text(bytes)[i],
        ) by {
            if i >= 4 {
                assert(base64_text(bytes)[i] == rest[i - 4]);
            }
        }
    }
}

/// Different bits have different characters, and none of them is the padding.
proof fn lemma_base64_char_injective(m: int, n: int)
    requires
        0 <= m < 64,
        0 <= n < 64,
        base64_char(m) == base64_char(n),
    ensures
        m == n,
        base64_char(m) != '=',
{
}

/// Different bytes have different Base64 texts.
pub proof fn lemma_base64_injective(bytes: Seq<u8>, other: Seq<u8>)
    requires
        base64_text(bytes) == base64_text(other),
    ensures
        bytes == other,
    decreases bytes.len(),
{
    let text = base64_text(bytes);
    if bytes.len() == 0 || other.len() == 0 {
        assert(bytes =~= other);
    } else {
        let a = bytes[0] as int;
        let b = if bytes.len() > 1 { bytes[1] as int } else { 0 };
        let c = if bytes.len() > 2 { bytes[2] as int } else { 0 };
        let x = other[0] as int;
        let y = if other.len() > 1 { other[1] as int } else { 0 };
        let z = if other.len() > 2 { other[2] as int } else { 0 };
        assert(text[0] == base64_char(a / 4));
        assert(text[0] == base64_char(x / 4));
        assert(text[1] == base64_char(a % 4 * 16 + b / 16));
        assert(text[1] == base64_char(x % 4 * 16 + y / 16));
        lemma_base64_char_injective(a / 4, x / 4);
        lemma_base64_char_injective(a % 4 * 16 + b / 16, x % 4 * 16 + y / 16);
        assert(a == x);
        assert(bytes.len() > 1 ==> text[2] == base64_char(b % 16 * 4 + c / 64));
        assert(other.len() > 1 ==> text[2] == base64_char(y % 16 * 4 + z / 64));
        if bytes.len() == 1 || other.len() == 1 {
            assert(text[2] == '=');
            lemma_base64_char_injective(b % 16 * 4 + c / 64, b % 16 * 4 + c / 64);
            lemma_base64_char_injective(y % 16 * 4 + z / 64, y % 16 * 4 + z / 64);
            assert(bytes =~= other);
        } else {
            lemma_base64_char_injective(b % 16 * 4 + c / 64, y % 16 * 4 + z / 64);
            assert(b == y);
            assert(bytes.len() > 2 ==> text[3] == base64_char(c % 64));
            assert(other.len() > 2 ==> text[3] == base64_char(z % 64));
            if bytes.len() == 2 || other.len() == 2 {
                assert(text[3] == '=');
                lemma_base64_char_injective(c % 64, c % 64);
                lemma_base64_char_injective(z % 64, z % 64);
                assert(bytes =~= other);
            } else {
                lemma_base64_char_injective(c % 64, z % 64);
                assert(c == z);
                assert(base64_text(bytes.skip(3)) =~= text.skip(4));
                assert(base64_text(other.skip(3)) =~= text.skip(4));
                lemma_base64_injective(bytes.skip(3), other.skip(3));
                assert forall|i: int| 0 <= i < bytes.len() implies bytes[i] == other[i] by {
                    if i >= 3 {
                        assert(bytes.skip(3)[i - 3] == other.skip(3)[i - 3]);
                    }
                }
                assert(bytes.len() == bytes.skip(3).len() + 3);
                assert(other.len() == other.skip(3).len() + 3);
                assert(bytes =~= other);
            }
        }
    }
}

/// The character for six bits is the one at that place of the alphabet.
pub proof fn base64_follows_the_alphabet(bits: int)
    requires
        0 <= bits < 64,
    ensures
        base64_char(bits)
            == "ABCDEFGHIJKLMNOPQRSTUVWXYZabcdefghijklmnopqrstuvwxyz0123456789+/"@[bits],
{
    reveal_strlit("ABCDEFGHIJKLMNOPQRSTUVWXYZabcdefghijklmnopqrstuvwxyz0123456789+/");
}

/// Three bytes are one number of 24 bits, and the four characters for them are the digits of that
/// number in base 64, from the highest to the lowest. Where bytes are missing from the last three,
/// they count as zero, and padding stands in place of the digits that they alone would have made.
/// The text has four characters for each three bytes or what is left, and nothing else.
pub proof fn base64_spells_the_bytes(bytes: Seq<u8>, i: int)
    requires
        0 <= i,
        3 * i < bytes.len(),
    ensures
        ({
            let text = base64_text(bytes);
            let alphabet = "ABCDEFGHIJKLMNOPQRSTUVWXYZabcdefghijklmnopqrstuvwxyz0123456789+/"@;
            let a = bytes[3 * i] as int;
            let b = if 3 * i + 1 < bytes.len() {
                bytes[3 * i + 1] as int
            } else {
                0
            };
            let c = if 3 * i + 2 < bytes.len() {
                bytes[3 * i + 2] as int
            } else {
                0
            };
            let number = a * 65536 + b * 256 + c;
            &&& text.len() == (bytes.len() + 2) / 3 * 4
            &&& 4 * i + 4 <= text.len()
            &&& text[4 * i] == alphabet[number / 262144]
            &&& text[4 * i + 1] == alphabet[number / 4096 % 64]
            &&& text[4 * i + 2] == if 3 * i + 1 < bytes.len() {
                alphabet[number / 64 % 64]
            } else {
                '='
            }
            &&& text[4 * i + 3] == if 3 * i + 2 < bytes.len() {
                alphabet[number % 64]
            } else {
                '='
            }
        }),
    decreases bytes.len(),
{
    let text = base64_text(bytes);
    lemma_base64_length(bytes);
    if i > 0 {
        let rest = bytes.skip(3);
        base64_spells_the_bytes(rest, i - 1);
        lemma_base64_rest(bytes);
        assert(rest[3 * (i - 1)] == bytes[3 * i]);
        assert(3 * i + 1 < bytes.len() ==> rest[3 * (i - 1) + 1] == bytes[3 * i + 1]);
        assert(3 * i + 2 < bytes.len() ==> rest[3 * (i - 1) + 2] == bytes[3 * i + 2]);
        assert(text[4 * i] == text.skip(4)[4 * (i - 1)]);
        assert(text[4 * i + 1] == text.skip(4)[4 * (i - 1) + 1]);
        assert(text[4 * i + 2] == text.skip(4)[4 * (i - 1) + 2]);
        assert(text[4 * i + 3] == text.skip(4)[4 * (i - 1) + 3]);
    } else {
        let a = bytes[0] as int;
        let b = if 1 < bytes.len() {
            bytes[1] as int
        } else {
            0
        };
        let c = if 2 < bytes.len() {
            bytes[2] as int
        } else {
            0
        };
        lemma_digits(a, b, c);
        base64_follows_the_alphabet(a / 4);
        base64_follows_the_alphabet(a % 4 * 16 + b / 16);
        base64_follows_the_alphabet(b % 16 * 4 + c / 64);
        base64_follows_the_alphabet(c % 64);
    }
}

/// The digits in base 64 of three bytes.
proof fn lemma_digits(a: int, b: int, c: int)
    requires
        0 <= a < 256,
        0 <= b < 256,
        0 <= c < 256,
    ensures
        ({
            let number = a * 65536 + b * 256 + c;
            &&& number / 262144 == a / 4
            &&& number / 4096 % 64 == a % 4 * 16 + b / 16
            &&& number / 64 % 64 == b % 16 * 4 + c / 64
            &&& number % 64 == c % 64
        }),
{
    let number = a * 65536 + b * 256 + c;
    assert(number / 4096 == a * 16 + b / 16);
    assert(number / 64 == a * 1024 + b * 4 + c / 64);
}

/// The text of more than three bytes goes on with that of the bytes after the first three.
proof fn lemma_base64_rest(bytes: Seq<u8>)
    requires
        bytes.len() > 3,
    ensures
        base64_text(bytes).skip(4) == base64_text(bytes.skip(3)),
{
    assert(base64_text(bytes).skip(4) =~= base64_text(bytes.skip(3)));
}

/// The text has four characters for each three bytes, or what is left of them.
pub proof fn lemma_base64_length(bytes: Seq<u8>)
    ensures
        base64_text(bytes).len() == (bytes.len() + 2) / 3 * 4,
    decreases bytes.len(),
{
    if bytes.len() >= 3 {
        lemma_base64_length(bytes.skip(3));
    }
}

/// No bytes have no text.
pub proof fn base64_of_nothing_is_nothing()
    ensures
        base64_text(Seq::empty()).len() == 0,
{
}

/// The text of some bytes can be held where its length is at most the largest length of a string.
pub proof fn base64_fits_up_to_the_largest_length(n: nat)
    ensures
        fits_base64(n) <==> 4 * ((n + 2) / 3) <= isize::MAX,
{
}

} // verus!
