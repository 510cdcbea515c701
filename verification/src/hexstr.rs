//! Lowercase hexadecimal rendering of identifier bytes.
//!
//! Trace and span identifiers arrive as raw bytes and are stored under
//! their hexadecimal text form; this module fixes that form as a spec
//! function and wraps the encoder of the `hex` crate with it.
use vstd::prelude::*;

verus! {

/// The lowercase hex digit for a value below 16.
pub open spec fn hex_digit(n: u8) -> char
    recommends
        n < 16,
{
    if n < 10 {
        (('0' as u8) + n) as char
    } else {
        (('a' as u8) + (n - 10)) as char
    }
}

/// The two lowercase hex digits of one byte, high digit first.
pub open spec fn byte_hex(b: u8) -> Seq<char> {
    seq![hex_digit(b / 16), hex_digit(b % 16)]
}

/// The lowercase hex rendering of a byte sequence: two digits per byte.
pub open spec fn hex_seq(bs: Seq<u8>) -> Seq<char>
    decreases bs.len(),
{
    if bs.len() == 0 {
        Seq::empty()
    } else {
        byte_hex(bs[0]) + hex_seq(bs.drop_first())
    }
}

pub proof fn lemma_hex_seq_len(bs: Seq<u8>)
    ensures
        hex_seq(bs).len() == 2 * bs.len(),
    decreases bs.len(),
{
    if bs.len() > 0 {
        lemma_hex_seq_len(bs.drop_first());
    }
}

/// Whether a character is a lowercase hex digit.
pub open spec fn is_hex_char(c: char) -> bool {
    exists|n: u8| n < 16 && c == hex_digit(n)
}

/// Whether a character sequence is lowercase hex text of length `n`.
pub open spec fn is_hex_text(s: Seq<char>, n: int) -> bool {
    s.len() == n && forall|i: int| 0 <= i < s.len() ==> is_hex_char(s[i])
}

/// Hex renderings are hex text: two digits per byte, every character a
/// lowercase hex digit.
pub proof fn lemma_hex_seq_is_hex(bs: Seq<u8>)
    ensures
        is_hex_text(hex_seq(bs), 2 * bs.len() as int),
    decreases bs.len(),
{
    lemma_hex_seq_len(bs);
    if bs.len() > 0 {
        lemma_hex_seq_is_hex(bs.drop_first());
        lemma_hex_seq_len(bs.drop_first());
        assert forall|i: int| 0 <= i < hex_seq(bs).len() implies is_hex_char(hex_seq(bs)[i]) by {
            let b = bs[0];
            if i == 0 {
                assert(hex_seq(bs)[0] == hex_digit(b / 16));
                assert(b / 16 < 16);
            } else if i == 1 {
                assert(hex_seq(bs)[1] == hex_digit(b % 16));
                assert(b % 16 < 16);
            } else {
                assert(hex_seq(bs)[i] == hex_seq(bs.drop_first())[i - 2]);
            }
        }
    }
}

/// Hex digits of distinct values are distinct characters.
proof fn lemma_hex_digit_injective(m: u8, n: u8)
    requires
        m < 16,
        n < 16,
        hex_digit(m) == hex_digit(n),
    ensures
        m == n,
{
    assert(hex_digit(m) as u32 == hex_digit(n) as u32);
    if m < 10 {
        assert(hex_digit(m) as u32 == ('0' as u8) + m);
    } else {
        assert(hex_digit(m) as u32 == ('a' as u8) + (m - 10));
    }
    if n < 10 {
        assert(hex_digit(n) as u32 == ('0' as u8) + n);
    } else {
        assert(hex_digit(n) as u32 == ('a' as u8) + (n - 10));
    }
}

/// Identifier bytes round-trip losslessly through their hex text form:
/// equal renderings come only from equal bytes.
pub proof fn lemma_hex_seq_injective(a: Seq<u8>, b: Seq<u8>)
    requires
        hex_seq(a) == hex_seq(b),
    ensures
        a == b,
    decreases a.len(),
{
    lemma_hex_seq_len(a);
    lemma_hex_seq_len(b);
    if a.len() == 0 {
        assert(a =~= b);
    } else {
        assert(hex_seq(a)[0] == hex_digit(a[0] / 16) && hex_seq(a)[1] == hex_digit(a[0] % 16));
        assert(hex_seq(b)[0] == hex_digit(b[0] / 16) && hex_seq(b)[1] == hex_digit(b[0] % 16));
        lemma_hex_digit_injective(a[0] / 16, b[0] / 16);
        lemma_hex_digit_injective(a[0] % 16, b[0] % 16);
        assert(a[0] == b[0]);
        assert(hex_seq(a).skip(2) =~= hex_seq(a.drop_first()));
        assert(hex_seq(b).skip(2) =~= hex_seq(b.drop_first()));
        lemma_hex_seq_injective(a.drop_first(), b.drop_first());
        assert forall|i: int| 0 <= i < a.len() implies a[i] == b[i] by {
            if i > 0 {
                assert(a[i] == a.drop_first()[i - 1]);
                assert(b[i] == b.drop_first()[i - 1]);
            }
        }
        assert(a =~= b);
    }
}

/// Relies on hex::encode: it returns the lowercase hexadecimal rendering
/// of the input bytes, two digits per byte, high digit first.
#[verifier::external_body]
pub(crate) fn hex_encode(bs: &[u8]) -> (r: String)
    ensures
        r@ == hex_seq(bs@),
{
    hex::encode(bs)
}

} // verus!
