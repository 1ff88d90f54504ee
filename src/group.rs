//! The fixed group shared by prover and verifier: a 1024-bit prime modulus
//! with a 160-bit prime-order subgroup, whose numbers are written in hex.

use crate::bignum::{be_value, BigNum};
use crate::zkp::ZKP;
use vstd::arithmetic::power::pow;
use vstd::prelude::*;

verus! {

/// The modulus `p`, in hex.
pub const MODULUS_HEX: &'static str = "B10B8F96A080E01DDE92DE5EAE5D54EC52C99FBCFB06A3C69A6A9DCA52D23B616073E28675A23D189838EF1E2EE652C013ECB4AEA906112324975C3CD49B83BFACCBDD7D90C4BD7098488E9C219A73724EFFD6FAE5644738FAA31A4FF55BCCC0A151AF5F0DC8B4BD45BF37DF365C1A65E68CFDA76D4DA708DF1FB2BC2E4A4371";

/// The subgroup order `q`, in hex.
pub const ORDER_HEX: &'static str = "F518AA8781A8DF278ABA4E7D64B7CB9D49462353";

/// The generator `g`, in hex.
pub const GENERATOR_HEX: &'static str = "A4D1CBD5C3FD34126765A442EFB99905F8104DD258AC507FD6406CFF14266D31266FEA1E5C41564B777E690F5504F213160217B4B01B886A5E91547F9E2749F4D7FBD7D3B9A92EE1909D0D2263F80A76A6A24C087A091F531DBF0A0169B6A28AD662A4D18E73AFA32D779D5918D08BC8858F4DCEF97C2A24855E6EEB22B3B2E5";

/// The exponent that derives the second generator `h = g^e mod p`, in hex.
pub const EXPONENT_HEX: &'static str = "8E73AFA32D779D5918D08BC8858F4DCEF97C2A24855E6EEB22B3B2E5";

/// One of `0-9`, `a-f`, `A-F`.
pub open spec fn is_hex_digit(ch: char) -> bool {
    ('0' <= ch && ch <= '9') || ('a' <= ch && ch <= 'f') || ('A' <= ch && ch <= 'F')
}

/// The value of a hex digit.
pub open spec fn hex_digit_value(ch: char) -> nat {
    if '0' <= ch && ch <= '9' {
        (ch as u32 - '0' as u32) as nat
    } else if 'a' <= ch && ch <= 'f' {
        (ch as u32 - 'a' as u32 + 10) as nat
    } else {
        (ch as u32 - 'A' as u32 + 10) as nat
    }
}

/// An even number of hex digits.
pub open spec fn is_hex(s: Seq<char>) -> bool {
    s.len() % 2 == 0 && forall|i: int| 0 <= i < s.len() ==> is_hex_digit(#[trigger] s[i])
}

/// The bytes that a string of hex digit pairs spells, one byte per pair.
pub open spec fn hex_bytes(s: Seq<char>) -> Seq<u8> {
    Seq::new(
        s.len() / 2,
        |i: int| (16 * hex_digit_value(s[2 * i]) + hex_digit_value(s[2 * i + 1])) as u8,
    )
}

/// The number that a hex string spells, read as big-endian bytes.
pub open spec fn hex_number(s: Seq<char>) -> nat {
    be_value(hex_bytes(s))
}

/// Relies on `hex::decode`: it accepts exactly an even number of hex digits
/// of either case and returns one byte per pair, high digit first.
#[verifier::external_body]
fn decode_hex(s: &str) -> (r: Option<Vec<u8>>)
    ensures
        r is Some <==> is_hex(s@),
        r matches Some(v) ==> v@ == hex_bytes(s@),
{
    hex::decode(s).ok()
}

/// A big-endian number is at least its leading byte.
proof fn lemma_be_value_at_least_first(b: Seq<u8>)
    requires
        b.len() > 0,
    ensures
        be_value(b) >= b[0],
    decreases b.len(),
{
    if b.len() > 1 {
        lemma_be_value_at_least_first(b.drop_last());
        assert(b.drop_last()[0] == b[0]);
    }
}

/// The number that a hex string of known validity spells.
fn parse_hex(s: &str) -> (r: BigNum)
    requires
        is_hex(s@),
    ensures
        r@ == hex_number(s@),
{
    match decode_hex(s) {
        Some(bytes) => BigNum::from_bytes_be(bytes.as_slice()),
        None => BigNum::zero(),
    }
}

impl ZKP {
    /// The fixed group, as `(g, h, p, q)`: `p`, `q` and `g` are the numbers
    /// written in `MODULUS_HEX`, `ORDER_HEX` and `GENERATOR_HEX`, and
    /// `h = g^e mod p` for the `e` written in `EXPONENT_HEX`.
    pub fn get_constants() -> (r: (BigNum, BigNum, BigNum, BigNum))
        ensures
            r.0@ == hex_number(GENERATOR_HEX@),
            r.1@ == pow(r.0@ as int, hex_number(EXPONENT_HEX@)) % (r.2@ as int),
            r.2@ == hex_number(MODULUS_HEX@),
            r.3@ == hex_number(ORDER_HEX@),
            r.2@ > 1,
            r.3@ > 0,
    {
        proof {
            reveal_strlit("B10B8F96A080E01DDE92DE5EAE5D54EC52C99FBCFB06A3C69A6A9DCA52D23B616073E28675A23D189838EF1E2EE652C013ECB4AEA906112324975C3CD49B83BFACCBDD7D90C4BD7098488E9C219A73724EFFD6FAE5644738FAA31A4FF55BCCC0A151AF5F0DC8B4BD45BF37DF365C1A65E68CFDA76D4DA708DF1FB2BC2E4A4371");
            reveal_strlit("F518AA8781A8DF278ABA4E7D64B7CB9D49462353");
            reveal_strlit("A4D1CBD5C3FD34126765A442EFB99905F8104DD258AC507FD6406CFF14266D31266FEA1E5C41564B777E690F5504F213160217B4B01B886A5E91547F9E2749F4D7FBD7D3B9A92EE1909D0D2263F80A76A6A24C087A091F531DBF0A0169B6A28AD662A4D18E73AFA32D779D5918D08BC8858F4DCEF97C2A24855E6EEB22B3B2E5");
            reveal_strlit("8E73AFA32D779D5918D08BC8858F4DCEF97C2A24855E6EEB22B3B2E5");
            assert(is_hex(MODULUS_HEX@));
            assert(is_hex(ORDER_HEX@));
            assert(is_hex(GENERATOR_HEX@));
            assert(is_hex(EXPONENT_HEX@));
            lemma_be_value_at_least_first(hex_bytes(MODULUS_HEX@));
            lemma_be_value_at_least_first(hex_bytes(ORDER_HEX@));
        }
        let p = parse_hex(MODULUS_HEX);
        let q = parse_hex(ORDER_HEX);
        let g = parse_hex(GENERATOR_HEX);
        let e = parse_hex(EXPONENT_HEX);
        let h = g.modpow(&e, &p);
        (g, h, p, q)
    }

    /// The fixed group of `get_constants`.
    pub fn standard() -> (r: ZKP)
        ensures
            r.wf(),
            r.g@ == hex_number(GENERATOR_HEX@),
            r.h@ == pow(r.g@ as int, hex_number(EXPONENT_HEX@)) % (r.p@ as int),
            r.p@ == hex_number(MODULUS_HEX@),
            r.q@ == hex_number(ORDER_HEX@),
    {
        let (g, h, p, q) = ZKP::get_constants();
        ZKP { p, q, g, h }
    }
}

} // verus!
