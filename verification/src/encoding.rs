//! Small byte-level encodings the container and export formats are built
//! from: big-endian 32-bit words, decimal numerals, and the bridge between
//! byte sequences and strings.

use vstd::prelude::*;
use vstd::utf8::*;

verus! {

/// The value of a 4-byte big-endian word.
pub open spec fn be32_value(s: Seq<u8>) -> int
    recommends
        s.len() == 4,
{
    s[0] * 0x100_0000 + s[1] * 0x1_0000 + s[2] * 0x100 + s[3]
}

/// The 4-byte big-endian encoding of a 32-bit value.
pub open spec fn be32_bytes(x: u32) -> Seq<u8> {
    seq![
        (x / 0x100_0000) as u8,
        ((x / 0x1_0000) % 0x100) as u8,
        ((x / 0x100) % 0x100) as u8,
        (x % 0x100) as u8,
    ]
}

/// Reading back a big-endian encoding gives the encoded value.
pub proof fn lemma_be32_roundtrip(x: u32)
    ensures
        be32_value(be32_bytes(x)) == x,
{
    assert(be32_value(be32_bytes(x)) == x) by (bit_vector);
}

/// Encode a 32-bit value as 4 big-endian bytes.
pub fn u32_to_be_bytes(x: u32) -> (r: Vec<u8>)
    ensures
        r@ == be32_bytes(x),
        r@.len() == 4,
{
    let mut r: Vec<u8> = Vec::with_capacity(4);
    assert(x / 0x100_0000 < 0x100) by (bit_vector);
    r.push((x / 0x100_0000) as u8);
    r.push(((x / 0x1_0000) % 0x100) as u8);
    r.push(((x / 0x100) % 0x100) as u8);
    r.push((x % 0x100) as u8);
    proof {
        assert(r@ =~= be32_bytes(x));
    }
    r
}

/// Read a 32-bit value from 4 big-endian bytes.
pub fn u32_from_be_bytes(b: &[u8]) -> (x: u32)
    requires
        b@.len() == 4,
    ensures
        x == be32_value(b@),
{
    let b0 = b[0];
    let b1 = b[1];
    let b2 = b[2];
    let b3 = b[3];
    (b0 as u32) * 0x100_0000 + (b1 as u32) * 0x1_0000 + (b2 as u32) * 0x100 + (b3 as u32)
}

/// Whether a byte is an ASCII decimal digit.
pub open spec fn is_digit_byte(b: u8) -> bool {
    48 <= b <= 57
}

/// The shortest decimal numeral of a number, as ASCII bytes.
pub open spec fn dec_bytes(n: nat) -> Seq<u8>
    decreases n,
{
    if n < 10 {
        seq![(48 + n) as u8]
    } else {
        dec_bytes(n / 10) + seq![(48 + n % 10) as u8]
    }
}

/// The number a sequence of ASCII digit bytes denotes.
pub open spec fn dec_value(s: Seq<u8>) -> int
    decreases s.len(),
{
    if s.len() == 0 {
        0
    } else {
        dec_value(s.drop_last()) * 10 + (s.last() - 48)
    }
}

/// Every byte of a decimal numeral is a digit.
pub proof fn lemma_dec_bytes_digits(n: nat)
    ensures
        forall|i: int| 0 <= i < dec_bytes(n).len() ==> is_digit_byte(#[trigger] dec_bytes(n)[i]),
        dec_bytes(n).len() >= 1,
    decreases n,
{
    if n >= 10 {
        lemma_dec_bytes_digits(n / 10);
    }
}

/// Reading back a decimal numeral gives the encoded number.
pub proof fn lemma_dec_roundtrip(n: nat)
    ensures
        dec_value(dec_bytes(n)) == n,
    decreases n,
{
    if n < 10 {
        let s = dec_bytes(n);
        assert(s =~= seq![(48 + n) as u8]);
        assert(s.drop_last() =~= Seq::<u8>::empty());
        assert(dec_value(s.drop_last()) == 0);
        assert(s.last() == (48 + n) as u8);
        assert(dec_value(s) == (48 + n) as u8 - 48);
    } else {
        lemma_dec_roundtrip(n / 10);
        let s = dec_bytes(n);
        assert(s =~= dec_bytes(n / 10) + seq![(48 + n % 10) as u8]);
        assert(s.drop_last() =~= dec_bytes(n / 10));
        assert(s.last() == (48 + n % 10) as u8);
        assert(dec_value(s) == dec_value(dec_bytes(n / 10)) * 10 + ((48 + n % 10) as u8 - 48));
        vstd::arithmetic::div_mod::lemma_fundamental_div_mod(n as int, 10);
        assert(dec_value(s) == (n / 10) * 10 + n % 10);
    }
}

/// Bounds on the value of a digit string, by its length.
pub proof fn lemma_dec_value_bound(s: Seq<u8>)
    requires
        forall|i: int| 0 <= i < s.len() ==> is_digit_byte(#[trigger] s[i]),
    ensures
        0 <= dec_value(s),
        s.len() == 0 ==> dec_value(s) == 0,
        s.len() <= 1 ==> dec_value(s) < 10,
        s.len() <= 2 ==> dec_value(s) < 100,
        s.len() <= 3 ==> dec_value(s) < 1000,
        s.len() <= 4 ==> dec_value(s) < 10000,
        s.len() <= 5 ==> dec_value(s) < 100000,
    decreases s.len(),
{
    if s.len() > 0 {
        lemma_dec_value_bound(s.drop_last());
    }
}

/// A digit string whose first digit is not zero has a positive value, and
/// at least 10 once it has two digits.
pub proof fn lemma_dec_value_pos(s: Seq<u8>)
    requires
        forall|i: int| 0 <= i < s.len() ==> is_digit_byte(#[trigger] s[i]),
        s.len() >= 1,
        s[0] != 48,
    ensures
        dec_value(s) >= 1,
        s.len() >= 2 ==> dec_value(s) >= 10,
    decreases s.len(),
{
    if s.len() == 1 {
        assert(s.drop_last() =~= Seq::<u8>::empty());
        assert(dec_value(Seq::<u8>::empty()) == 0);
    } else {
        lemma_dec_value_pos(s.drop_last());
    }
}

/// A digit string without a leading zero is the decimal numeral of its
/// own value: scanning digits inverts [`dec_bytes`].
pub proof fn lemma_dec_canonical(s: Seq<u8>)
    requires
        forall|i: int| 0 <= i < s.len() ==> is_digit_byte(#[trigger] s[i]),
        s.len() >= 1,
        s.len() > 1 ==> s[0] != 48,
    ensures
        dec_bytes(dec_value(s) as nat) == s,
    decreases s.len(),
{
    if s.len() == 1 {
        assert(s.drop_last() =~= Seq::<u8>::empty());
        assert(dec_value(Seq::<u8>::empty()) == 0);
        assert(dec_value(s) == s[0] - 48);
        assert(dec_bytes(dec_value(s) as nat) =~= s);
    } else {
        let front = s.drop_last();
        let d = s.last();
        lemma_dec_canonical(front);
        lemma_dec_value_pos(front);
        let vf = dec_value(front);
        let v = dec_value(s);
        assert(v == vf * 10 + (d - 48));
        vstd::arithmetic::div_mod::lemma_fundamental_div_mod_converse(
            v,
            10,
            vf,
            (d - 48) as int,
        );
        assert(v / 10 == vf && v % 10 == d - 48);
        assert(v >= 10);
        assert(dec_bytes(v as nat) == dec_bytes((v as nat) / 10) + seq![
            (48 + (v as nat) % 10) as u8,
        ]);
        assert((v as nat) / 10 == vf as nat && (v as nat) % 10 == d - 48);
        assert(dec_bytes(v as nat) =~= s);
    }
}

/// A 16-bit value's decimal numeral has at most five digits.
pub proof fn lemma_dec_len(n: nat)
    ensures
        n < 10 ==> dec_bytes(n).len() == 1,
        n < 100 ==> dec_bytes(n).len() <= 2,
        n < 1000 ==> dec_bytes(n).len() <= 3,
        n < 10000 ==> dec_bytes(n).len() <= 4,
        n < 100000 ==> dec_bytes(n).len() <= 5,
    decreases n,
{
    if n >= 10 {
        lemma_dec_len(n / 10);
    }
}

/// A numeral of more than one digit starts with a nonzero digit.
pub proof fn lemma_dec_no_leading_zero(n: nat)
    requires
        n >= 1,
    ensures
        dec_bytes(n)[0] != 48,
    decreases n,
{
    if n >= 10 {
        lemma_dec_no_leading_zero(n / 10);
        assert(dec_bytes(n)[0] == dec_bytes(n / 10)[0]);
    }
}

/// Encode a 16-bit number as its shortest decimal numeral.
pub fn u16_to_decimal(n: u16) -> (r: Vec<u8>)
    ensures
        r@ == dec_bytes(n as nat),
    decreases n,
{
    if n < 10 {
        let mut r: Vec<u8> = Vec::new();
        r.push(48 + n as u8);
        proof {
            assert(r@ =~= dec_bytes(n as nat));
        }
        r
    } else {
        let mut r = u16_to_decimal(n / 10);
        r.push(48 + (n % 10) as u8);
        proof {
            assert(r@ =~= dec_bytes(n as nat));
        }
        r
    }
}

/// The decimal numeral of a number, as characters.
pub open spec fn dec_chars(n: nat) -> Seq<char> {
    decode_utf8(dec_bytes(n))
}

/// A sequence of bytes below 128 is valid UTF-8 and decodes to the
/// characters with the same codes.
pub proof fn lemma_ascii_bytes_valid(b: Seq<u8>)
    requires
        forall|i: int| 0 <= i < b.len() ==> b[i] < 128,
    ensures
        valid_utf8(b),
        decode_utf8(b) == Seq::new(b.len(), |i: int| b[i] as char),
{
    let c = Seq::new(b.len(), |i: int| b[i] as char);
    assert(is_ascii_chars(c));
    is_ascii_chars_encode_utf8(c);
    assert(encode_utf8(c) =~= b);
    encode_utf8_valid_utf8(c);
    encode_utf8_decode_utf8(c);
}

/// Relies on `String::from_utf8`: it succeeds exactly on valid UTF-8 and
/// returns the character sequence the bytes encode.
#[verifier::external_body]
pub(crate) fn bytes_to_string(v: Vec<u8>) -> (r: Result<String, ()>)
    ensures
        r is Ok <==> valid_utf8(v@),
        r is Ok ==> r->Ok_0@ == decode_utf8(v@),
{
    match String::from_utf8(v) {
        Ok(s) => Ok(s),
        Err(_) => Err(()),
    }
}

} // verus!
