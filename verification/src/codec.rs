//! The durable record format: one stored span is persisted as a JSON
//! object with the fields trace_id, span_id, name, kind, start_time,
//! end_time and status, in that order. The encoder and the parser are
//! exact inverses, which is what makes a stored span recoverable: see
//! `lemma_record_round_trip`.
//!
//! Text is carried as UTF-8; inside JSON strings the quote, the
//! backslash and control bytes are escaped, everything else passes
//! through.
use vstd::prelude::*;

use vstd::utf8::{
    decode_utf8, encode_utf8, encode_utf8_decode_utf8, encode_utf8_valid_utf8, valid_utf8,
};

use vstd::seq_lib::lemma_concat_associative;
use vstd::string::StringSliceAdditionalSpecFns;

use crate::hexstr::hex_digit;
use crate::storage::{StoredSpan, StoredSpanView};

verus! {

/// Byte values the format leans on.
pub const QUOTE: u8 = 0x22;

pub const BACKSLASH: u8 = 0x5C;

/// The escaping of one payload byte inside a JSON string: quote and
/// backslash get a backslash, control bytes become a `\u00xy` escape,
/// everything else stands for itself.
pub open spec fn esc_byte(b: u8) -> Seq<u8> {
    if b == QUOTE {
        seq![BACKSLASH, QUOTE]
    } else if b == BACKSLASH {
        seq![BACKSLASH, BACKSLASH]
    } else if b < 0x20 {
        seq![
            BACKSLASH,
            0x75u8,
            0x30u8,
            0x30u8,
            hex_digit((b / 16) as u8) as u8,
            hex_digit((b % 16) as u8) as u8,
        ]
    } else {
        seq![b]
    }
}

/// The escaping of a payload byte sequence.
pub open spec fn json_escape(bs: Seq<u8>) -> Seq<u8>
    decreases bs.len(),
{
    if bs.len() == 0 {
        Seq::empty()
    } else {
        esc_byte(bs[0]) + json_escape(bs.drop_first())
    }
}

/// Escaping distributes over concatenation.
pub proof fn lemma_json_escape_concat(a: Seq<u8>, b: Seq<u8>)
    ensures
        json_escape(a + b) == json_escape(a) + json_escape(b),
    decreases a.len(),
{
    if a.len() == 0 {
        assert(a + b =~= b);
        assert(json_escape(a) + json_escape(b) =~= json_escape(b));
    } else {
        lemma_json_escape_concat(a.drop_first(), b);
        assert((a + b).drop_first() =~= a.drop_first() + b);
        assert(json_escape(a + b) =~= esc_byte(a[0]) + json_escape(a.drop_first() + b));
        assert(esc_byte(a[0]) + (json_escape(a.drop_first()) + json_escape(b)) =~= (esc_byte(a[0])
            + json_escape(a.drop_first())) + json_escape(b));
    }
}

/// The decimal rendering of an unsigned integer, most significant digit
/// first, with no sign and no leading zero.
pub open spec fn dec_bytes(n: u64) -> Seq<u8>
    decreases n,
{
    if n < 10 {
        seq![(0x30 + n) as u8]
    } else {
        dec_bytes(n / 10) + seq![(0x30 + (n % 10)) as u8]
    }
}

/// The escaped UTF-8 bytes of a text field.
pub open spec fn text_bytes(s: Seq<char>) -> Seq<u8> {
    json_escape(encode_utf8(s))
}

/// The record bytes of one stored span: a JSON object with the fields
/// in their fixed order.
pub open spec fn record_bytes(v: StoredSpanView) -> Seq<u8> {
    encode_utf8("{\"trace_id\":\""@) + (text_bytes(v.trace_id) + (encode_utf8(
        "\",\"span_id\":\""@,
    ) + (text_bytes(v.span_id) + (encode_utf8("\",\"name\":\""@) + (text_bytes(v.name)
        + (encode_utf8("\",\"kind\":\""@) + (text_bytes(v.kind) + (encode_utf8(
        "\",\"start_time\":"@,
    ) + (dec_bytes(v.start_time) + (encode_utf8(",\"end_time\":"@) + (dec_bytes(v.end_time)
        + (encode_utf8(",\"status\":\""@) + (text_bytes(v.status) + encode_utf8(
        "\"}"@,
    ))))))))))))))
}

/// Appends a byte slice.
fn push_bytes(out: &mut Vec<u8>, bs: &[u8])
    ensures
        final(out)@ == old(out)@ + bs@,
{
    let mut i: usize = 0;
    while i < bs.len()
        invariant
            0 <= i <= bs@.len(),
            out@ == old(out)@ + bs@.take(i as int),
        decreases bs@.len() - i,
    {
        out.push(bs[i]);
        proof {
            assert(bs@.take(i as int + 1) =~= bs@.take(i as int).push(bs@[i as int]));
            assert(old(out)@ + bs@.take(i as int + 1) =~= (old(out)@ + bs@.take(i as int)).push(
                bs@[i as int],
            ));
        }
        i = i + 1;
    }
    proof {
        assert(bs@.take(bs@.len() as int) =~= bs@);
    }
}

/// Appends the escaped form of a payload byte slice.
fn push_escaped(out: &mut Vec<u8>, bs: &[u8])
    ensures
        final(out)@ == old(out)@ + json_escape(bs@),
{
    let mut i: usize = 0;
    while i < bs.len()
        invariant
            0 <= i <= bs@.len(),
            out@ == old(out)@ + json_escape(bs@.take(i as int)),
        decreases bs@.len() - i,
    {
        let b = bs[i];
        if b == QUOTE {
            out.push(BACKSLASH);
            out.push(QUOTE);
        } else if b == BACKSLASH {
            out.push(BACKSLASH);
            out.push(BACKSLASH);
        } else if b < 0x20 {
            out.push(BACKSLASH);
            out.push(0x75);
            out.push(0x30);
            out.push(0x30);
            out.push(hex_digit_byte(b / 16));
            out.push(hex_digit_byte(b % 16));
        } else {
            out.push(b);
        }
        proof {
            assert(bs@.take(i as int + 1) =~= bs@.take(i as int) + seq![bs@[i as int]]);
            lemma_json_escape_concat(bs@.take(i as int), seq![bs@[i as int]]);
            assert(seq![bs@[i as int]].drop_first() =~= Seq::<u8>::empty());
            assert(json_escape(Seq::<u8>::empty()) == Seq::<u8>::empty());
            assert(json_escape(seq![bs@[i as int]].drop_first()) == Seq::<u8>::empty());
            assert(esc_byte(bs@[i as int]) + Seq::<u8>::empty() =~= esc_byte(bs@[i as int]));
            assert(json_escape(seq![bs@[i as int]]) =~= esc_byte(bs@[i as int]));
            assert(out@ =~= old(out)@ + json_escape(bs@.take(i as int + 1)));
        }
        i = i + 1;
    }
    proof {
        assert(bs@.take(bs@.len() as int) =~= bs@);
    }
}

/// The lowercase hex digit byte for a value below 16.
fn hex_digit_byte(n: u8) -> (r: u8)
    requires
        n < 16,
    ensures
        r == hex_digit(n) as u8,
{
    if n < 10 {
        0x30 + n
    } else {
        0x61 + (n - 10)
    }
}

/// Renders an unsigned integer in decimal, most significant digit
/// first.
fn u64_to_dec(n: u64) -> (r: Vec<u8>)
    ensures
        r@ == dec_bytes(n),
    decreases n,
{
    if n < 10 {
        let mut v: Vec<u8> = Vec::new();
        v.push(0x30 + (n as u8));
        proof {
            assert(v@ =~= dec_bytes(n));
        }
        v
    } else {
        let mut v = u64_to_dec(n / 10);
        v.push(0x30 + ((n % 10) as u8));
        proof {
            assert(v@ =~= dec_bytes(n));
        }
        v
    }
}

/// Whether a byte is a decimal digit.
pub open spec fn is_dec_digit(b: u8) -> bool {
    0x30 <= b <= 0x39
}

/// Whether a byte is a lowercase hex digit.
pub open spec fn is_hex_lower_byte(b: u8) -> bool {
    is_dec_digit(b) || (0x61 <= b <= 0x66)
}

/// The value of a lowercase hex digit byte.
pub open spec fn hex_val(b: u8) -> u8 {
    if is_dec_digit(b) {
        (b - 0x30) as u8
    } else {
        (b - 0x61 + 10) as u8
    }
}

/// Consuming an exact literal from the front of the input: succeeds
/// exactly when the input starts with the literal, leaving the rest.
pub open spec fn spec_expect(bs: Seq<u8>, lit: Seq<u8>) -> Option<Seq<u8>> {
    if lit.len() <= bs.len() && bs.take(lit.len() as int) == lit {
        Some(bs.skip(lit.len() as int))
    } else {
        None
    }
}

/// Scanning a JSON string body from the front of the input up to, but
/// not including, the closing quote: yields the unescaped payload bytes
/// and the rest of the input starting at the closing quote. Rejects
/// raw control bytes and any escape the encoder does not emit.
pub open spec fn spec_scan_jstring(bs: Seq<u8>) -> Option<(Seq<u8>, Seq<u8>)>
    decreases bs.len(),
{
    if bs.len() == 0 {
        None
    } else if bs[0] == QUOTE {
        Some((Seq::empty(), bs))
    } else if bs[0] == BACKSLASH {
        if bs.len() < 2 {
            None
        } else if bs[1] == QUOTE || bs[1] == BACKSLASH {
            match spec_scan_jstring(bs.skip(2)) {
                None => None,
                Some((pl, rest)) => Some((seq![bs[1]] + pl, rest)),
            }
        } else if bs[1] == 0x75 {
            if bs.len() < 6 {
                None
            } else if bs[2] == 0x30 && bs[3] == 0x30 && is_hex_lower_byte(bs[4])
                && is_hex_lower_byte(bs[5]) {
                match spec_scan_jstring(bs.skip(6)) {
                    None => None,
                    Some((pl, rest)) => Some(
                        (seq![(hex_val(bs[4]) * 16 + hex_val(bs[5])) as u8] + pl, rest),
                    ),
                }
            } else {
                None
            }
        } else {
            None
        }
    } else if bs[0] < 0x20 {
        None
    } else {
        match spec_scan_jstring(bs.skip(1)) {
            None => None,
            Some((pl, rest)) => Some((seq![bs[0]] + pl, rest)),
        }
    }
}

/// The length of the run of decimal digits at the front of the input.
pub open spec fn digits_prefix_len(bs: Seq<u8>) -> nat
    decreases bs.len(),
{
    if bs.len() > 0 && is_dec_digit(bs[0]) {
        1 + digits_prefix_len(bs.drop_first())
    } else {
        0
    }
}

/// The value of a run of decimal digit bytes, most significant first.
pub open spec fn dec_val(ds: Seq<u8>) -> int
    decreases ds.len(),
{
    if ds.len() == 0 {
        0
    } else {
        dec_val(ds.drop_last()) * 10 + (ds.last() - 0x30)
    }
}

/// Consuming an unsigned decimal number from the front of the input:
/// succeeds exactly when the input starts with at least one digit and
/// the digit run's value fits the counter width.
pub open spec fn spec_parse_u64(bs: Seq<u8>) -> Option<(u64, Seq<u8>)> {
    let k = digits_prefix_len(bs) as int;
    if k == 0 {
        None
    } else if dec_val(bs.take(k)) > u64::MAX {
        None
    } else {
        Some((dec_val(bs.take(k)) as u64, bs.skip(k)))
    }
}

/// The first half of a record: the four text fields, yielding their
/// raw payload bytes and the rest of the input, which starts at the
/// quote that closes the kind field.
pub open spec fn spec_parse_texts(bs: Seq<u8>) -> Option<
    ((Seq<u8>, Seq<u8>, Seq<u8>, Seq<u8>), Seq<u8>),
> {
    match spec_expect(bs, encode_utf8("{\"trace_id\":\""@)) {
        None => None,
        Some(r1) => match spec_scan_jstring(r1) {
            None => None,
            Some((tb, r2)) => match spec_expect(r2, encode_utf8("\",\"span_id\":\""@)) {
                None => None,
                Some(r3) => match spec_scan_jstring(r3) {
                    None => None,
                    Some((sb, r4)) => match spec_expect(r4, encode_utf8("\",\"name\":\""@)) {
                        None => None,
                        Some(r5) => match spec_scan_jstring(r5) {
                            None => None,
                            Some((nb, r6)) => match spec_expect(
                                r6,
                                encode_utf8("\",\"kind\":\""@),
                            ) {
                                None => None,
                                Some(r7) => match spec_scan_jstring(r7) {
                                    None => None,
                                    Some((kb, r8)) => Some(((tb, sb, nb, kb), r8)),
                                },
                            },
                        },
                    },
                },
            },
        },
    }
}

/// The middle of a record: the two timestamps, yielding them and the
/// rest of the input.
pub open spec fn spec_parse_times(bs: Seq<u8>) -> Option<((u64, u64), Seq<u8>)> {
    match spec_expect(bs, encode_utf8("\",\"start_time\":"@)) {
        None => None,
        Some(r9) => match spec_parse_u64(r9) {
            None => None,
            Some((st, r10)) => match spec_expect(r10, encode_utf8(",\"end_time\":"@)) {
                None => None,
                Some(r11) => match spec_parse_u64(r11) {
                    None => None,
                    Some((et, r12)) => Some(((st, et), r12)),
                },
            },
        },
    }
}

/// The tail of a record: the status field and the closing brace, with
/// nothing left over, yielding the status payload bytes.
pub open spec fn spec_parse_tail(bs: Seq<u8>) -> Option<Seq<u8>> {
    match spec_expect(bs, encode_utf8(",\"status\":\""@)) {
        None => None,
        Some(r13) => match spec_scan_jstring(r13) {
            None => None,
            Some((qb, r14)) => match spec_expect(r14, encode_utf8("\"}"@)) {
                None => None,
                Some(r15) => if r15.len() == 0 {
                    Some(qb)
                } else {
                    None
                },
            },
        },
    }
}

/// What parsing a whole record yields: the fields in their fixed order,
/// each text field decoded from UTF-8, with nothing left over. `None`
/// exactly on inputs that are not a record.
pub open spec fn spec_parse_record(bs: Seq<u8>) -> Option<StoredSpanView> {
    match spec_parse_texts(bs) {
        None => None,
        Some(((tb, sb, nb, kb), r8)) => match spec_parse_times(r8) {
            None => None,
            Some(((st, et), r12)) => match spec_parse_tail(r12) {
                None => None,
                Some(qb) => if valid_utf8(tb) && valid_utf8(sb) && valid_utf8(nb) && valid_utf8(kb)
                    && valid_utf8(qb) {
                    Some(
                        StoredSpanView {
                            trace_id: decode_utf8(tb),
                            span_id: decode_utf8(sb),
                            name: decode_utf8(nb),
                            kind: decode_utf8(kb),
                            start_time: st,
                            end_time: et,
                            status: decode_utf8(qb),
                        },
                    )
                } else {
                    None
                },
            },
        },
    }
}

/// Encodes a stored span into its record bytes, exactly as
/// `record_bytes` states.
pub fn encode_stored_span(s: &StoredSpan) -> (r: Vec<u8>)
    ensures
        r@ == record_bytes(s@),
{
    let mut out: Vec<u8> = Vec::new();
    push_bytes(&mut out, "{\"trace_id\":\"".as_bytes());
    let ghost p1 = out@;
    push_escaped(&mut out, s.trace_id.as_str().as_bytes());
    let ghost p2 = out@;
    push_bytes(&mut out, "\",\"span_id\":\"".as_bytes());
    let ghost p3 = out@;
    push_escaped(&mut out, s.span_id.as_str().as_bytes());
    let ghost p4 = out@;
    push_bytes(&mut out, "\",\"name\":\"".as_bytes());
    let ghost p5 = out@;
    push_escaped(&mut out, s.name.as_str().as_bytes());
    let ghost p6 = out@;
    push_bytes(&mut out, "\",\"kind\":\"".as_bytes());
    let ghost p7 = out@;
    push_escaped(&mut out, s.kind.as_str().as_bytes());
    let ghost p8 = out@;
    push_bytes(&mut out, "\",\"start_time\":".as_bytes());
    let ghost p9 = out@;
    let st = u64_to_dec(s.start_time);
    push_bytes(&mut out, st.as_slice());
    let ghost p10 = out@;
    push_bytes(&mut out, ",\"end_time\":".as_bytes());
    let ghost p11 = out@;
    let et = u64_to_dec(s.end_time);
    push_bytes(&mut out, et.as_slice());
    let ghost p12 = out@;
    push_bytes(&mut out, ",\"status\":\"".as_bytes());
    let ghost p13 = out@;
    push_escaped(&mut out, s.status.as_str().as_bytes());
    let ghost p14 = out@;
    push_bytes(&mut out, "\"}".as_bytes());
    proof {
        let a1 = encode_utf8("{\"trace_id\":\""@);
        let a2 = text_bytes(s@.trace_id);
        let a3 = encode_utf8("\",\"span_id\":\""@);
        let a4 = text_bytes(s@.span_id);
        let a5 = encode_utf8("\",\"name\":\""@);
        let a6 = text_bytes(s@.name);
        let a7 = encode_utf8("\",\"kind\":\""@);
        let a8 = text_bytes(s@.kind);
        let a9 = encode_utf8("\",\"start_time\":"@);
        let a10 = dec_bytes(s@.start_time);
        let a11 = encode_utf8(",\"end_time\":"@);
        let a12 = dec_bytes(s@.end_time);
        let a13 = encode_utf8(",\"status\":\""@);
        let a14 = text_bytes(s@.status);
        let a15 = encode_utf8("\"}"@);
        // Suffixes of the record, innermost first.
        let s15 = a15;
        let s14 = a14 + s15;
        let s13 = a13 + s14;
        let s12 = a12 + s13;
        let s11 = a11 + s12;
        let s10 = a10 + s11;
        let s9 = a9 + s10;
        let s8 = a8 + s9;
        let s7 = a7 + s8;
        let s6 = a6 + s7;
        let s5 = a5 + s6;
        let s4 = a4 + s5;
        let s3 = a3 + s4;
        let s2 = a2 + s3;
        assert(Seq::<u8>::empty() + a1 =~= a1);
        // Re-associate one junction at a time, from the end back to the
        // front: out == p14 + a15 == p13 + s14 == ... == a1 + s2.
        assert(out@ == p14 + s15);
        lemma_concat_associative(p13, a14, s15);
        assert(out@ == p13 + s14);
        lemma_concat_associative(p12, a13, s14);
        assert(out@ == p12 + s13);
        lemma_concat_associative(p11, a12, s13);
        assert(out@ == p11 + s12);
        lemma_concat_associative(p10, a11, s12);
        assert(out@ == p10 + s11);
        lemma_concat_associative(p9, a10, s11);
        assert(out@ == p9 + s10);
        lemma_concat_associative(p8, a9, s10);
        assert(out@ == p8 + s9);
        lemma_concat_associative(p7, a8, s9);
        assert(out@ == p7 + s8);
        lemma_concat_associative(p6, a7, s8);
        assert(out@ == p6 + s7);
        lemma_concat_associative(p5, a6, s7);
        assert(out@ == p5 + s6);
        lemma_concat_associative(p4, a5, s6);
        assert(out@ == p4 + s5);
        lemma_concat_associative(p3, a4, s5);
        assert(out@ == p3 + s4);
        lemma_concat_associative(p2, a3, s4);
        assert(out@ == p2 + s3);
        lemma_concat_associative(p1, a2, s3);
        assert(out@ == p1 + s2);
        assert(out@ == a1 + s2);
        assert(out@ == record_bytes(s@));
    }
    out
}

/// Consuming a literal placed at the front of the input leaves exactly
/// what follows it.
proof fn lemma_expect_concat(lit: Seq<u8>, rest: Seq<u8>)
    ensures
        spec_expect(lit + rest, lit) == Some(rest),
{
    assert((lit + rest).take(lit.len() as int) =~= lit);
    assert((lit + rest).skip(lit.len() as int) =~= rest);
}

/// The first byte of the UTF-8 encoding of a text that starts with an
/// ASCII character is that character, and the encoding continues with
/// the encoding of the rest.
proof fn lemma_utf8_ascii_first(s: Seq<char>)
    requires
        s.len() > 0,
        (s[0] as u32) < 0x80,
    ensures
        encode_utf8(s).len() >= 1,
        encode_utf8(s)[0] == (s[0] as u32) as u8,
        encode_utf8(s).skip(1) == encode_utf8(s.drop_first()),
{
    let v = s[0] as u32;
    assert((v & 0x7F) == v) by (bit_vector)
        requires
            v < 0x80,
    ;
    assert(encode_utf8(s) == vstd::utf8::encode_scalar(v) + encode_utf8(s.drop_first()));
    assert(vstd::utf8::encode_scalar(v) =~= seq![(v & 0x7F) as u8]);
    assert(encode_utf8(s).skip(1) =~= encode_utf8(s.drop_first()));
}

/// Scanning the escaped form of a payload followed by a closing quote
/// recovers the payload exactly, leaving the rest untouched.
proof fn lemma_scan_escape(pl: Seq<u8>, rest: Seq<u8>)
    requires
        rest.len() > 0,
        rest[0] == QUOTE,
    ensures
        spec_scan_jstring(json_escape(pl) + rest) == Some((pl, rest)),
    decreases pl.len(),
{
    if pl.len() == 0 {
        assert(json_escape(pl) + rest =~= rest);
    } else {
        let b = pl[0];
        lemma_scan_escape(pl.drop_first(), rest);
        let tail = json_escape(pl.drop_first()) + rest;
        let bs = json_escape(pl) + rest;
        assert(json_escape(pl) == esc_byte(b) + json_escape(pl.drop_first()));
        assert(bs =~= esc_byte(b) + tail);
        if b == QUOTE || b == BACKSLASH {
            assert(bs[0] == BACKSLASH && bs[1] == b);
            assert(bs.skip(2) =~= tail);
            assert(seq![b] + pl.drop_first() =~= pl);
        } else if b < 0x20 {
            assert(bs[0] == BACKSLASH && bs[1] == 0x75 && bs[2] == 0x30 && bs[3] == 0x30);
            assert(bs[4] == hex_digit((b / 16) as u8) as u8);
            assert(bs[5] == hex_digit((b % 16) as u8) as u8);
            lemma_hex_digit_byte_val((b / 16) as u8);
            lemma_hex_digit_byte_val((b % 16) as u8);
            assert(hex_val(bs[4]) == b / 16 && hex_val(bs[5]) == b % 16);
            assert((hex_val(bs[4]) * 16 + hex_val(bs[5])) as u8 == b);
            assert(bs.skip(6) =~= tail);
            assert(seq![b] + pl.drop_first() =~= pl);
        } else {
            assert(bs[0] == b);
            assert(bs.skip(1) =~= tail);
            assert(seq![b] + pl.drop_first() =~= pl);
        }
    }
}

/// A lowercase hex digit's byte is recognized as one and decodes back
/// to its value.
proof fn lemma_hex_digit_byte_val(n: u8)
    requires
        n < 16,
    ensures
        is_hex_lower_byte(hex_digit(n) as u8),
        hex_val(hex_digit(n) as u8) == n,
{
}

/// Every byte of a decimal rendering is a digit.
proof fn lemma_dec_bytes_digits(n: u64)
    ensures
        dec_bytes(n).len() >= 1,
        forall|i: int| 0 <= i < dec_bytes(n).len() ==> is_dec_digit(#[trigger] dec_bytes(n)[i]),
    decreases n,
{
    if n >= 10 {
        lemma_dec_bytes_digits(n / 10);
    }
}

/// The run of digits at the front of a digit sequence followed by a
/// non-digit is the whole digit sequence.
proof fn lemma_digits_prefix(ds: Seq<u8>, rest: Seq<u8>)
    requires
        forall|i: int| 0 <= i < ds.len() ==> is_dec_digit(#[trigger] ds[i]),
        rest.len() > 0,
        !is_dec_digit(rest[0]),
    ensures
        digits_prefix_len(ds + rest) == ds.len(),
    decreases ds.len(),
{
    if ds.len() == 0 {
        assert(ds + rest =~= rest);
    } else {
        lemma_digits_prefix(ds.drop_first(), rest);
        assert((ds + rest).drop_first() =~= ds.drop_first() + rest);
    }
}

/// The decimal rendering of a number has that number as its value.
proof fn lemma_dec_val_of_dec_bytes(n: u64)
    ensures
        dec_val(dec_bytes(n)) == n,
    decreases n,
{
    assert(dec_val(Seq::<u8>::empty()) == 0);
    if n < 10 {
        assert(dec_bytes(n).drop_last() =~= Seq::<u8>::empty());
        assert(dec_bytes(n).last() == (0x30 + n) as u8);
        assert(dec_val(dec_bytes(n)) == dec_val(Seq::<u8>::empty()) * 10 + ((0x30 + n) as u8
            - 0x30));
    } else {
        lemma_dec_val_of_dec_bytes(n / 10);
        assert(dec_bytes(n).drop_last() =~= dec_bytes(n / 10));
        assert(dec_bytes(n).last() == (0x30 + (n % 10)) as u8);
        assert(dec_val(dec_bytes(n)) == dec_val(dec_bytes(n / 10)) * 10 + ((0x30 + (n % 10)) as u8
            - 0x30));
    }
}

/// Consuming a number's rendering followed by a non-digit recovers the
/// number exactly, leaving the rest untouched.
proof fn lemma_parse_u64_roundtrip(n: u64, rest: Seq<u8>)
    requires
        rest.len() > 0,
        !is_dec_digit(rest[0]),
    ensures
        spec_parse_u64(dec_bytes(n) + rest) == Some((n, rest)),
{
    lemma_dec_bytes_digits(n);
    lemma_digits_prefix(dec_bytes(n), rest);
    lemma_dec_val_of_dec_bytes(n);
    let k = dec_bytes(n).len() as int;
    assert((dec_bytes(n) + rest).take(k) =~= dec_bytes(n));
    assert((dec_bytes(n) + rest).skip(k) =~= rest);
}

/// The text half of a record parses back to the four encoded fields.
proof fn lemma_parse_texts_roundtrip(
    a: Seq<char>,
    b: Seq<char>,
    c: Seq<char>,
    d: Seq<char>,
    rest: Seq<u8>,
)
    requires
        rest.len() > 0,
        rest[0] == QUOTE,
    ensures
        spec_parse_texts(
            encode_utf8("{\"trace_id\":\""@) + (text_bytes(a) + (encode_utf8("\",\"span_id\":\""@)
                + (text_bytes(b) + (encode_utf8("\",\"name\":\""@) + (text_bytes(c) + (encode_utf8(
                "\",\"kind\":\""@,
            ) + (text_bytes(d) + rest))))))),
        ) == Some(((encode_utf8(a), encode_utf8(b), encode_utf8(c), encode_utf8(d)), rest)),
{
    let lit1 = encode_utf8("{\"trace_id\":\""@);
    let lit2 = encode_utf8("\",\"span_id\":\""@);
    let lit3 = encode_utf8("\",\"name\":\""@);
    let lit4 = encode_utf8("\",\"kind\":\""@);
    let t4 = text_bytes(d) + rest;
    let c4 = lit4 + t4;
    let t3 = text_bytes(c) + c4;
    let c3 = lit3 + t3;
    let t2 = text_bytes(b) + c3;
    let c2 = lit2 + t2;
    let t1 = text_bytes(a) + c2;

    assert(lit2.len() > 0 && lit2[0] == QUOTE) by {
        reveal_strlit("\",\"span_id\":\"");
        lemma_utf8_ascii_first("\",\"span_id\":\""@);
    }
    assert(lit3.len() > 0 && lit3[0] == QUOTE) by {
        reveal_strlit("\",\"name\":\"");
        lemma_utf8_ascii_first("\",\"name\":\""@);
    }
    assert(lit4.len() > 0 && lit4[0] == QUOTE) by {
        reveal_strlit("\",\"kind\":\"");
        lemma_utf8_ascii_first("\",\"kind\":\""@);
    }
    assert(c2[0] == QUOTE && c3[0] == QUOTE && c4[0] == QUOTE);

    lemma_expect_concat(lit1, t1);
    lemma_scan_escape(encode_utf8(a), c2);
    lemma_expect_concat(lit2, t2);
    lemma_scan_escape(encode_utf8(b), c3);
    lemma_expect_concat(lit3, t3);
    lemma_scan_escape(encode_utf8(c), c4);
    lemma_expect_concat(lit4, t4);
    lemma_scan_escape(encode_utf8(d), rest);
}

/// The timestamp half of a record parses back to the two numbers.
proof fn lemma_parse_times_roundtrip(st: u64, et: u64, rest: Seq<u8>)
    requires
        rest.len() > 0,
        rest[0] == 0x2C,
    ensures
        spec_parse_times(
            encode_utf8("\",\"start_time\":"@) + (dec_bytes(st) + (encode_utf8(",\"end_time\":"@)
                + (dec_bytes(et) + rest))),
        ) == Some(((st, et), rest)),
{
    let lit5 = encode_utf8("\",\"start_time\":"@);
    let lit6 = encode_utf8(",\"end_time\":"@);
    let n6 = dec_bytes(et) + rest;
    let c6 = lit6 + n6;
    let n5 = dec_bytes(st) + c6;

    assert(lit6.len() > 0 && lit6[0] == 0x2C) by {
        reveal_strlit(",\"end_time\":");
        lemma_utf8_ascii_first(",\"end_time\":"@);
    }
    assert(c6[0] == 0x2C && !is_dec_digit(c6[0]));
    assert(!is_dec_digit(rest[0]));

    lemma_expect_concat(lit5, n5);
    lemma_parse_u64_roundtrip(st, c6);
    lemma_expect_concat(lit6, n6);
    lemma_parse_u64_roundtrip(et, rest);
}

/// The tail of a record parses back to the encoded status field.
proof fn lemma_parse_tail_roundtrip(s: Seq<char>)
    ensures
        spec_parse_tail(
            encode_utf8(",\"status\":\""@) + (text_bytes(s) + encode_utf8("\"}"@)),
        ) == Some(encode_utf8(s)),
{
    let lit7 = encode_utf8(",\"status\":\""@);
    let lit8 = encode_utf8("\"}"@);
    let t7 = text_bytes(s) + lit8;

    assert(lit8.len() > 0 && lit8[0] == QUOTE) by {
        reveal_strlit("\"}");
        lemma_utf8_ascii_first("\"}"@);
    }

    lemma_expect_concat(lit7, t7);
    lemma_scan_escape(encode_utf8(s), lit8);
    assert(lit8 =~= lit8 + Seq::<u8>::empty());
    lemma_expect_concat(lit8, Seq::<u8>::empty());
    assert(spec_expect(lit8, lit8) == Some(Seq::<u8>::empty()));
}

/// The value of a lowercase hex digit byte.
fn hex_val_byte(b: u8) -> (r: u8)
    requires
        is_hex_lower_byte(b),
    ensures
        r == hex_val(b),
        r < 16,
{
    if b <= 0x39 {
        b - 0x30
    } else {
        b - 0x61 + 10
    }
}

/// Consumes an exact literal at position `p`, as `spec_expect` states
/// on the remaining input.
fn expect_lit(bs: &[u8], p: usize, lit: &str) -> (r: Option<usize>)
    requires
        p <= bs@.len(),
    ensures
        r matches Some(q) ==> p <= q <= bs@.len() && spec_expect(
            bs@.skip(p as int),
            lit.spec_bytes(),
        ) == Some(bs@.skip(q as int)),
        r is None ==> spec_expect(bs@.skip(p as int), lit.spec_bytes()) is None,
{
    let lb = lit.as_bytes();
    if bs.len() - p < lb.len() {
        return None;
    }
    let mut i: usize = 0;
    while i < lb.len()
        invariant
            0 <= i <= lb@.len(),
            p + lb@.len() <= bs@.len(),
            bs@.len() <= usize::MAX,
            lb@ == lit.spec_bytes(),
            forall|t: int| 0 <= t < i ==> bs@[p + t] == lb@[t],
        decreases lb@.len() - i,
    {
        if bs[p + i] != lb[i] {
            proof {
                let suff = bs@.skip(p as int);
                assert(suff.take(lb@.len() as int)[i as int] == bs@[p + i]);
                assert(suff.take(lb@.len() as int) != lb@);
                assert(lb@ == lit.spec_bytes());
                assert(spec_expect(bs@.skip(p as int), lit.spec_bytes()) is None);
            }
            return None;
        }
        i = i + 1;
    }
    proof {
        let suff = bs@.skip(p as int);
        assert(suff.take(lb@.len() as int) =~= lb@);
        assert(suff.skip(lb@.len() as int) =~= bs@.skip(p + lb@.len()));
    }
    Some(p + lb.len())
}

/// How a partial scan relates to the scan of the whole input: whatever
/// the rest scans to, the whole scans to the collected payload followed
/// by it.
spec fn scan_continues(s0: Seq<u8>, done: Seq<u8>, cur: Seq<u8>) -> bool {
    match spec_scan_jstring(cur) {
        Some((pl, rest)) => spec_scan_jstring(s0) == Some((done + pl, rest)),
        None => spec_scan_jstring(s0) is None,
    }
}

/// Scans a JSON string body at position `p` up to the closing quote,
/// as `spec_scan_jstring` states on the remaining input.
fn scan_jstring(bs: &[u8], p: usize) -> (r: Option<(Vec<u8>, usize)>)
    requires
        p <= bs@.len(),
    ensures
        r matches Some((pl, q)) ==> p <= q <= bs@.len() && spec_scan_jstring(bs@.skip(p as int))
            == Some((pl@, bs@.skip(q as int))),
        r is None ==> spec_scan_jstring(bs@.skip(p as int)) is None,
{
    let ghost s0 = bs@.skip(p as int);
    let mut out: Vec<u8> = Vec::new();
    let mut q: usize = p;
    loop
        invariant
            p <= q <= bs@.len(),
            s0 == bs@.skip(p as int),
            scan_continues(s0, out@, bs@.skip(q as int)),
        decreases bs@.len() - q,
    {
        let ghost cur = bs@.skip(q as int);
        if q >= bs.len() {
            proof {
                assert(cur =~= Seq::<u8>::empty());
            }
            return None;
        }
        let b = bs[q];
        proof {
            assert(cur[0] == b);
        }
        if b == QUOTE {
            proof {
                assert(out@ + Seq::<u8>::empty() =~= out@);
            }
            return Some((out, q));
        } else if b == BACKSLASH {
            if bs.len() - q < 2 {
                proof {
                    assert(cur.len() < 2);
                }
                return None;
            }
            let c = bs[q + 1];
            proof {
                assert(cur[1] == c);
            }
            if c == QUOTE || c == BACKSLASH {
                let ghost out_snap = out@;
                out.push(c);
                proof {
                    assert(cur.skip(2) =~= bs@.skip(q as int + 2));
                    assert forall|pl2: Seq<u8>| true implies out_snap + (seq![c] + pl2) == out@
                        + pl2 by {
                        assert(out_snap + (seq![c] + pl2) =~= out@ + pl2);
                    }
                }
                q = q + 2;
            } else if c == 0x75 {
                if bs.len() - q < 6 {
                    proof {
                        assert(cur.len() < 6);
                    }
                    return None;
                }
                let h2 = bs[q + 2];
                let h3 = bs[q + 3];
                let h4 = bs[q + 4];
                let h5 = bs[q + 5];
                proof {
                    assert(cur[2] == h2 && cur[3] == h3 && cur[4] == h4 && cur[5] == h5);
                }
                if !(h2 == 0x30 && h3 == 0x30) {
                    return None;
                }
                if !(h4 >= 0x30 && h4 <= 0x39 || h4 >= 0x61 && h4 <= 0x66) {
                    return None;
                }
                if !(h5 >= 0x30 && h5 <= 0x39 || h5 >= 0x61 && h5 <= 0x66) {
                    return None;
                }
                let v = hex_val_byte(h4) * 16 + hex_val_byte(h5);
                let ghost out_snap = out@;
                out.push(v);
                proof {
                    assert(v == (hex_val(cur[4]) * 16 + hex_val(cur[5])) as u8);
                    assert(cur.skip(6) =~= bs@.skip(q as int + 6));
                    assert forall|pl2: Seq<u8>| true implies out_snap + (seq![v] + pl2) == out@
                        + pl2 by {
                        assert(out_snap + (seq![v] + pl2) =~= out@ + pl2);
                    }
                }
                q = q + 6;
            } else {
                return None;
            }
        } else if b < 0x20 {
            return None;
        } else {
            let ghost out_snap = out@;
            out.push(b);
            proof {
                assert(cur.skip(1) =~= bs@.skip(q as int + 1));
                assert forall|pl2: Seq<u8>| true implies out_snap + (seq![b] + pl2) == out@
                    + pl2 by {
                    assert(out_snap + (seq![b] + pl2) =~= out@ + pl2);
                }
            }
            q = q + 1;
        }
    }
}

/// The value of a digit run is never negative.
proof fn lemma_dec_val_nonneg(ds: Seq<u8>)
    requires
        forall|i: int| 0 <= i < ds.len() ==> is_dec_digit(#[trigger] ds[i]),
    ensures
        dec_val(ds) >= 0,
    decreases ds.len(),
{
    if ds.len() > 0 {
        lemma_dec_val_nonneg(ds.drop_last());
    }
}

/// The value of a digit run only grows as digits are appended.
proof fn lemma_dec_val_monotone(ds: Seq<u8>, t: int)
    requires
        0 <= t <= ds.len(),
        forall|i: int| 0 <= i < ds.len() ==> is_dec_digit(#[trigger] ds[i]),
    ensures
        dec_val(ds.take(t)) <= dec_val(ds),
    decreases ds.len(),
{
    if t == ds.len() {
        assert(ds.take(t) =~= ds);
    } else {
        assert(ds.drop_last().take(t) =~= ds.take(t));
        lemma_dec_val_monotone(ds.drop_last(), t);
        lemma_dec_val_nonneg(ds.drop_last());
    }
}

/// Consumes an unsigned decimal number at position `p`, as
/// `spec_parse_u64` states on the remaining input.
fn parse_u64_at(bs: &[u8], p: usize) -> (r: Option<(u64, usize)>)
    requires
        p <= bs@.len(),
    ensures
        r matches Some((n, q)) ==> p <= q <= bs@.len() && spec_parse_u64(bs@.skip(p as int))
            == Some((n, bs@.skip(q as int))),
        r is None ==> spec_parse_u64(bs@.skip(p as int)) is None,
{
    let ghost s0 = bs@.skip(p as int);
    let mut q: usize = p;
    while q < bs.len() && bs[q] >= 0x30 && bs[q] <= 0x39
        invariant
            p <= q <= bs@.len(),
            s0 == bs@.skip(p as int),
            forall|t: int| p <= t < q ==> is_dec_digit(#[trigger] bs@[t]),
            digits_prefix_len(s0) == (q - p) + digits_prefix_len(bs@.skip(q as int)),
        decreases bs@.len() - q,
    {
        proof {
            let cur = bs@.skip(q as int);
            assert(cur[0] == bs@[q as int]);
            assert(cur.drop_first() =~= bs@.skip(q as int + 1));
        }
        q = q + 1;
    }
    proof {
        let cur = bs@.skip(q as int);
        if q == bs@.len() {
            assert(cur =~= Seq::<u8>::empty());
        } else {
            assert(cur[0] == bs@[q as int]);
        }
        assert(digits_prefix_len(cur) == 0);
        assert(digits_prefix_len(s0) == q - p);
    }
    if q == p {
        return None;
    }
    let ghost ds = s0.take((q - p) as int);
    proof {
        assert(ds =~= bs@.subrange(p as int, q as int));
        assert(forall|i: int| 0 <= i < ds.len() ==> is_dec_digit(#[trigger] ds[i]));
    }
    let mut acc: u64 = 0;
    let mut t: usize = p;
    while t < q
        invariant
            p <= t <= q <= bs@.len(),
            p < q,
            s0 == bs@.skip(p as int),
            digits_prefix_len(s0) == q - p,
            ds == s0.take((q - p) as int),
            ds =~= bs@.subrange(p as int, q as int),
            forall|i: int| p <= i < q ==> is_dec_digit(#[trigger] bs@[i]),
            forall|i: int| 0 <= i < ds.len() ==> is_dec_digit(#[trigger] ds[i]),
            acc == dec_val(bs@.subrange(p as int, t as int)),
        decreases q - t,
    {
        let d: u8 = bs[t] - 0x30;
        proof {
            lemma_dec_val_nonneg(bs@.subrange(p as int, t as int));
        }
        if acc > (u64::MAX - (d as u64)) / 10 {
            proof {
                let pre = bs@.subrange(p as int, t as int + 1);
                assert(pre.drop_last() =~= bs@.subrange(p as int, t as int));
                assert(pre.last() == bs@[t as int]);
                let f = (u64::MAX - (d as u64)) / 10;
                assert(u64::MAX - (d as u64) == 10 * f + ((u64::MAX - (d as u64)) % 10));
                assert(dec_val(pre) == 10 * (acc as int) + d);
                assert(acc as int >= f + 1);
                assert(10 * (acc as int) >= 10 * (f as int) + 10);
                assert(dec_val(pre) > u64::MAX);
                assert(ds.take(t - p + 1) =~= pre);
                lemma_dec_val_monotone(ds, t - p + 1);
                assert(dec_val(ds) > u64::MAX);
                assert(digits_prefix_len(bs@.skip(p as int)) == q - p);
                assert(dec_val(bs@.skip(p as int).take((q - p) as int)) > u64::MAX);
                assert(spec_parse_u64(bs@.skip(p as int)) is None);
            }
            return None;
        }
        proof {
            let f = (u64::MAX - (d as u64)) / 10;
            assert(u64::MAX - (d as u64) == 10 * f + ((u64::MAX - (d as u64)) % 10));
            assert(10 * (acc as int) + d <= u64::MAX);
        }
        acc = acc * 10 + (d as u64);
        proof {
            let pre = bs@.subrange(p as int, t as int + 1);
            assert(pre.drop_last() =~= bs@.subrange(p as int, t as int));
            assert(pre.last() == bs@[t as int]);
            assert(acc == dec_val(pre));
        }
        t = t + 1;
    }
    proof {
        assert(s0.skip((q - p) as int) =~= bs@.skip(q as int));
        assert(dec_val(ds) == acc);
    }
    Some((acc, q))
}

/// Relies on String::from_utf8: it succeeds exactly on byte sequences
/// that are valid UTF-8, and returns the text those bytes encode.
#[verifier::external_body]
fn string_from_utf8(bs: Vec<u8>) -> (r: Option<String>)
    ensures
        r matches Some(s) ==> valid_utf8(bs@) && s@ == decode_utf8(bs@),
        r is None ==> !valid_utf8(bs@),
{
    String::from_utf8(bs).ok()
}

/// Parses record bytes back into a stored span, exactly as
/// `spec_parse_record` states: the fields in their fixed order, with
/// nothing left over.
#[verifier::rlimit(100)]
pub fn parse_stored_span(data: &[u8]) -> (r: Option<StoredSpan>)
    ensures
        spec_parse_record(data@) matches Some(v) ==> (r matches Some(s) && s@ == v),
        spec_parse_record(data@) is None ==> r is None,
{
    proof {
        assert(data@.skip(0) =~= data@);
    }
    let r1 = match expect_lit(data, 0, "{\"trace_id\":\"") {
        Some(q) => q,
        None => {
            return None;
        },
    };
    let (tb, r2) = match scan_jstring(data, r1) {
        Some(x) => x,
        None => {
            return None;
        },
    };
    let r3 = match expect_lit(data, r2, "\",\"span_id\":\"") {
        Some(q) => q,
        None => {
            return None;
        },
    };
    let (sb, r4) = match scan_jstring(data, r3) {
        Some(x) => x,
        None => {
            return None;
        },
    };
    let r5 = match expect_lit(data, r4, "\",\"name\":\"") {
        Some(q) => q,
        None => {
            return None;
        },
    };
    let (nb, r6) = match scan_jstring(data, r5) {
        Some(x) => x,
        None => {
            return None;
        },
    };
    let r7 = match expect_lit(data, r6, "\",\"kind\":\"") {
        Some(q) => q,
        None => {
            return None;
        },
    };
    let (kb, r8) = match scan_jstring(data, r7) {
        Some(x) => x,
        None => {
            return None;
        },
    };
    let r9 = match expect_lit(data, r8, "\",\"start_time\":") {
        Some(q) => q,
        None => {
            return None;
        },
    };
    let (st, r10) = match parse_u64_at(data, r9) {
        Some(x) => x,
        None => {
            return None;
        },
    };
    let r11 = match expect_lit(data, r10, ",\"end_time\":") {
        Some(q) => q,
        None => {
            return None;
        },
    };
    let (et, r12) = match parse_u64_at(data, r11) {
        Some(x) => x,
        None => {
            return None;
        },
    };
    let r13 = match expect_lit(data, r12, ",\"status\":\"") {
        Some(q) => q,
        None => {
            return None;
        },
    };
    let (qb, r14) = match scan_jstring(data, r13) {
        Some(x) => x,
        None => {
            return None;
        },
    };
    let r15 = match expect_lit(data, r14, "\"}") {
        Some(q) => q,
        None => {
            return None;
        },
    };
    if r15 != data.len() {
        proof {
            assert(data@.skip(r15 as int).len() > 0);
        }
        return None;
    }
    proof {
        assert(data@.skip(r15 as int) =~= Seq::<u8>::empty());
    }
    let trace_id = match string_from_utf8(tb) {
        Some(s) => s,
        None => {
            return None;
        },
    };
    let span_id = match string_from_utf8(sb) {
        Some(s) => s,
        None => {
            return None;
        },
    };
    let name = match string_from_utf8(nb) {
        Some(s) => s,
        None => {
            return None;
        },
    };
    let kind = match string_from_utf8(kb) {
        Some(s) => s,
        None => {
            return None;
        },
    };
    let status = match string_from_utf8(qb) {
        Some(s) => s,
        None => {
            return None;
        },
    };
    let out = StoredSpan { trace_id, span_id, name, kind, start_time: st, end_time: et, status };
    proof {
        assert(spec_parse_record(data@) matches Some(v) && out@ =~= v);
    }
    Some(out)
}

/// Record round trip: parsing the record bytes of any stored span
/// recovers that stored span exactly. Together with `encode_stored_span`
/// and `parse_stored_span` this is what makes a persisted span
/// recoverable, field for field.
#[verifier::rlimit(100)]
pub proof fn lemma_record_round_trip(v: StoredSpanView)
    ensures
        spec_parse_record(record_bytes(v)) == Some(v),
{
    let tail = encode_utf8(",\"status\":\""@) + (text_bytes(v.status) + encode_utf8("\"}"@));
    let mid = encode_utf8("\",\"start_time\":"@) + (dec_bytes(v.start_time) + (encode_utf8(
        ",\"end_time\":"@,
    ) + (dec_bytes(v.end_time) + tail)));
    let chain = encode_utf8("{\"trace_id\":\""@) + (text_bytes(v.trace_id) + (encode_utf8(
        "\",\"span_id\":\""@,
    ) + (text_bytes(v.span_id) + (encode_utf8("\",\"name\":\""@) + (text_bytes(v.name)
        + (encode_utf8("\",\"kind\":\""@) + (text_bytes(v.kind) + mid)))))));

    assert(record_bytes(v) == chain);

    assert(mid.len() > 0 && mid[0] == QUOTE) by {
        reveal_strlit("\",\"start_time\":");
        lemma_utf8_ascii_first("\",\"start_time\":"@);
    }
    lemma_parse_texts_roundtrip(v.trace_id, v.span_id, v.name, v.kind, mid);
    assert(spec_parse_texts(chain) == Some(
        (
            (
                encode_utf8(v.trace_id),
                encode_utf8(v.span_id),
                encode_utf8(v.name),
                encode_utf8(v.kind),
            ),
            mid,
        ),
    ));

    assert(tail.len() > 0 && tail[0] == 0x2C) by {
        reveal_strlit(",\"status\":\"");
        lemma_utf8_ascii_first(",\"status\":\""@);
    }
    lemma_parse_times_roundtrip(v.start_time, v.end_time, tail);
    assert(spec_parse_times(mid) == Some(((v.start_time, v.end_time), tail)));

    lemma_parse_tail_roundtrip(v.status);
    assert(spec_parse_tail(tail) == Some(encode_utf8(v.status)));

    encode_utf8_valid_utf8(v.trace_id);
    encode_utf8_valid_utf8(v.span_id);
    encode_utf8_valid_utf8(v.name);
    encode_utf8_valid_utf8(v.kind);
    encode_utf8_valid_utf8(v.status);
    encode_utf8_decode_utf8(v.trace_id);
    encode_utf8_decode_utf8(v.span_id);
    encode_utf8_decode_utf8(v.name);
    encode_utf8_decode_utf8(v.kind);
    encode_utf8_decode_utf8(v.status);

    assert(spec_parse_record(record_bytes(v)) matches Some(w) && w =~= v);
}

} // verus!
