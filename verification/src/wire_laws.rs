//! What the wire format is, stated byte by byte: each header field as it is
//! laid out, with its numbers and lengths in the message's own byte order.
use vstd::prelude::*;
use vstd::utf8::{decode_utf8, encode_utf8, valid_utf8};

use crate::endianness::{lsb_bytes, lsb_value, Endianness};
use crate::object_path::is_valid_path;
use crate::wire::{
    decode_field, header_start, header_with_fields, lemma_pad8_extends, lemma_put_opt_number_extends,
    lemma_put_opt_text_extends, pad8, pad_len, put_number_field, put_opt_number, put_opt_text,
    put_text, read_u32, round8, spec_decode, spec_encode, DecodeError, FieldsV, HeaderField, MessageType,
    MessageV,
};

verus! {

/// The four bytes of `v`: least significant first where `little`, most
/// significant first otherwise.
pub open spec fn four_bytes(little: bool, v: u32) -> Seq<u8> {
    let b0 = (v % 0x100) as u8;
    let b1 = ((v / 0x100) % 0x100) as u8;
    let b2 = ((v / 0x1_0000) % 0x100) as u8;
    let b3 = (v / 0x100_0000) as u8;
    if little {
        seq![b0, b1, b2, b3]
    } else {
        seq![b3, b2, b1, b0]
    }
}

/// The number that four bytes stand for: least significant first where
/// `little`, most significant first otherwise.
pub open spec fn four_bytes_value(little: bool, b: Seq<u8>) -> int {
    if little {
        b[0] + 0x100 * b[1] + 0x1_0000 * b[2] + 0x100_0000 * b[3]
    } else {
        b[3] + 0x100 * b[2] + 0x1_0000 * b[1] + 0x100_0000 * b[0]
    }
}

/// Writing a `u32` in a byte order puts down its four bytes in that order.
pub proof fn lemma_bytes_of_u32(e: Endianness, v: u32)
    ensures
        e.bytes_of(v as nat, 4) == four_bytes(e == Endianness::LittleEndian, v),
{
    reveal_with_fuel(lsb_bytes, 5);
    let n = v as nat;
    assert(n / 0x100 / 0x100 == n / 0x1_0000) by {
        vstd::arithmetic::div_mod::lemma_div_denominator(n as int, 0x100, 0x100);
    }
    assert(n / 0x1_0000 / 0x100 == n / 0x100_0000) by {
        vstd::arithmetic::div_mod::lemma_div_denominator(n as int, 0x1_0000, 0x100);
    }
    assert(n / 0x100_0000 < 0x100) by {
        vstd::arithmetic::div_mod::lemma_div_by_multiple_is_strongly_ordered(
            n as int, 0x1_0000_0000, 0x100, 0x100_0000);
    }
    let l = lsb_bytes(n, 4);
    assert(l =~= seq![
        (n % 0x100) as u8,
        ((n / 0x100) % 0x100) as u8,
        ((n / 0x1_0000) % 0x100) as u8,
        ((n / 0x100_0000) % 0x100) as u8,
    ]);
    assert(l =~= four_bytes(true, v));
    assert(l.reverse() =~= four_bytes(false, v));
}

/// Reading four bytes in a byte order gives the number they stand for in that order.
pub proof fn lemma_value_of_four(e: Endianness, b: Seq<u8>)
    requires
        b.len() == 4,
    ensures
        e.value_of(b) == four_bytes_value(e == Endianness::LittleEndian, b),
{
    reveal_with_fuel(lsb_value, 5);
    let l = e.lsb_first(b);
    assert(l.drop_first().drop_first().drop_first().drop_first() =~= Seq::<u8>::empty());
    assert(l.drop_first()[0] == l[1]);
    assert(l.drop_first().drop_first()[0] == l[2]);
    assert(l.drop_first().drop_first().drop_first()[0] == l[3]);
}

/// Reading back four bytes written for `v`, in the same order, gives `v`.
proof fn lemma_read_four(e: Endianness, s: Seq<u8>, p: int, v: u32)
    requires
        0 <= p,
        p + 4 <= s.len(),
        s.subrange(p, p + 4) == four_bytes(e == Endianness::LittleEndian, v),
    ensures
        read_u32(s, p, e) == Ok::<(u32, int), crate::wire::DecodeError>((v, p + 4)),
{
    lemma_bytes_of_u32(e, v);
    e.lemma_u32_roundtrip(v);
}

/// A number header field (`REPLY_SERIAL`, code 5, or `UNIX_FDS`, code 9) at an
/// 8-aligned position, with signature `u` and the four bytes of `v` in the
/// message's byte order, decodes as `v`: the reply serial is `v`, and the
/// count of file descriptors is `v` where it is not zero. The other fields stay.
pub proof fn law_decode_number_field(s: Seq<u8>, pos: int, e: Endianness, acc: FieldsV, code: u8, v: u32)
    requires
        0 <= pos,
        pos % 8 == 0,
        pos + 8 <= s.len(),
        code == 5 || code == 9,
        s[pos] == code,
        s[pos + 1] == 1,
        s[pos + 2] == 0x75,
        s[pos + 3] == 0,
        s.subrange(pos + 4, pos + 8) == four_bytes(e == Endianness::LittleEndian, v),
    ensures
        decode_field(s, pos, e, acc) == Ok::<(FieldsV, int), crate::wire::DecodeError>((
            if code == 5 {
                FieldsV { reply_serial: Some(v), ..acc }
            } else {
                FieldsV { unix_fds: if v == 0 { None } else { Some(v) }, ..acc }
            },
            pos + 8,
        )),
{
    assert(pad_len(pos) == 0);
    lemma_read_four(e, s, pos + 4, v);
}

/// The field that a text header field code names, set to `t`.
pub open spec fn with_text_field(acc: FieldsV, code: u8, t: Seq<char>) -> FieldsV {
    if code == 1 {
        FieldsV { path: Some(t), ..acc }
    } else if code == 2 {
        FieldsV { interface: Some(t), ..acc }
    } else if code == 3 {
        FieldsV { member: Some(t), ..acc }
    } else if code == 4 {
        FieldsV { error_name: Some(t), ..acc }
    } else if code == 6 {
        FieldsV { destination: Some(t), ..acc }
    } else if code == 7 {
        FieldsV { sender: Some(t), ..acc }
    } else {
        FieldsV { signature: Some(t), ..acc }
    }
}

/// A string header field at an 8-aligned position (`PATH` with signature
/// `o`, or `INTERFACE`, `MEMBER`, `ERROR_NAME`, `DESTINATION`, `SENDER` with
/// signature `s`): its length as four bytes in the message's byte order, the
/// UTF-8 text and a nul. It decodes as that text, and ends after the nul.
pub proof fn law_decode_string_field(
    s: Seq<u8>,
    pos: int,
    e: Endianness,
    acc: FieldsV,
    code: u8,
    text: Seq<u8>,
)
    requires
        0 <= pos,
        pos % 8 == 0,
        pos + 9 + text.len() <= s.len(),
        text.len() <= 0xffff_ffff,
        valid_utf8(text),
        code == 1 ==> is_valid_path(text),
        code == 1 || code == 2 || code == 3 || code == 4 || code == 6 || code == 7,
        s[pos] == code,
        s[pos + 1] == 1,
        s[pos + 2] == (if code == 1 { 0x6fu8 } else { 0x73u8 }),
        s[pos + 3] == 0,
        s.subrange(pos + 4, pos + 8) == four_bytes(e == Endianness::LittleEndian, text.len() as u32),
        s.subrange(pos + 8, pos + 8 + text.len()) == text,
        s[pos + 8 + text.len()] == 0,
    ensures
        decode_field(s, pos, e, acc) == Ok::<(FieldsV, int), crate::wire::DecodeError>(
            (with_text_field(acc, code, decode_utf8(text)), pos + 9 + text.len()),
        ),
{
    assert(pad_len(pos) == 0);
    lemma_read_four(e, s, pos + 4, text.len() as u32);
    vstd::utf8::decode_utf8_encode_utf8(text);
}

/// A `SIGNATURE` header field (code 8, signature `g`) at an 8-aligned
/// position: one length byte, the UTF-8 text and a nul. It decodes as that
/// text, and ends after the nul.
pub proof fn law_decode_signature_field(s: Seq<u8>, pos: int, e: Endianness, acc: FieldsV, text: Seq<u8>)
    requires
        0 <= pos,
        pos % 8 == 0,
        pos + 6 + text.len() <= s.len(),
        text.len() < 0x100,
        valid_utf8(text),
        s[pos] == 8,
        s[pos + 1] == 1,
        s[pos + 2] == 0x67,
        s[pos + 3] == 0,
        s[pos + 4] == text.len(),
        s.subrange(pos + 5, pos + 5 + text.len()) == text,
        s[pos + 5 + text.len()] == 0,
    ensures
        decode_field(s, pos, e, acc) == Ok::<(FieldsV, int), crate::wire::DecodeError>(
            (FieldsV { signature: Some(decode_utf8(text)), ..acc }, pos + 6 + text.len()),
        ),
{
    assert(pad_len(pos) == 0);
}

/// `n` rounded up to a multiple of 8.
pub open spec fn up8(n: int) -> int {
    (n + 7) / 8 * 8
}

proof fn lemma_up8(n: int)
    requires
        n >= 0,
    ensures
        round8(n) == up8(n),
        n <= up8(n) < n + 8,
        up8(n) % 8 == 0,
{
}

/// A number header field written after `b`: `b` unchanged, nul bytes up to a
/// multiple of 8, the code (5 for `REPLY_SERIAL`, 9 for `UNIX_FDS`), the
/// signature `u`, then the four bytes of `v` in the message's byte order.
pub proof fn law_put_number_field(b: Seq<u8>, f: HeaderField, v: u32, e: Endianness)
    requires
        f == HeaderField::ReplySerial || f == HeaderField::UnixFds,
    ensures
        ({
            let w = put_number_field(b, f, v, e);
            let q = up8(b.len() as int);
            &&& w.len() == q + 8
            &&& w.subrange(0, b.len() as int) == b
            &&& forall|i: int| b.len() <= i < q ==> w[i] == 0
            &&& w[q] == (if f == HeaderField::ReplySerial { 5u8 } else { 9u8 })
            &&& w[q + 1] == 1
            &&& w[q + 2] == 0x75
            &&& w[q + 3] == 0
            &&& w.subrange(q + 4, q + 8) == four_bytes(e == Endianness::LittleEndian, v)
        }),
{
    let w = put_number_field(b, f, v, e);
    let q = up8(b.len() as int);
    lemma_up8(b.len() as int);
    lemma_bytes_of_u32(e, v);
    assert(w.subrange(0, b.len() as int) =~= b);
    assert(w.subrange(q + 4, q + 8) =~= four_bytes(e == Endianness::LittleEndian, v));
}

/// A text header field written after `b` with signature `sig`: `b`
/// unchanged, nul bytes up to a multiple of 8, the code, the signature, then
/// the length of the UTF-8 text (one byte for `g`, otherwise four bytes in the
/// message's byte order), the text and a nul.
pub proof fn law_put_text_field(b: Seq<u8>, code: u8, sig: u8, t: Seq<char>, e: Endianness)
    ensures
        ({
            let w = put_text(b, code, sig, t, e);
            let q = up8(b.len() as int);
            let bytes = encode_utf8(t);
            let n = bytes.len() as int;
            &&& w.subrange(0, b.len() as int) == b
            &&& forall|i: int| b.len() <= i < q ==> w[i] == 0
            &&& w[q] == code
            &&& w[q + 1] == 1
            &&& w[q + 2] == sig
            &&& w[q + 3] == 0
            &&& sig == 0x67 ==> {
                &&& w.len() == q + 6 + n
                &&& w[q + 4] == n as u8
                &&& w.subrange(q + 5, q + 5 + n) == bytes
                &&& w[q + 5 + n] == 0
            }
            &&& sig != 0x67 ==> {
                &&& w.len() == q + 9 + n
                &&& w.subrange(q + 4, q + 8) == four_bytes(e == Endianness::LittleEndian, n as u32)
                &&& w.subrange(q + 8, q + 8 + n) == bytes
                &&& w[q + 8 + n] == 0
            }
        }),
{
    let w = put_text(b, code, sig, t, e);
    let q = up8(b.len() as int);
    let bytes = encode_utf8(t);
    let n = bytes.len() as int;
    lemma_up8(b.len() as int);
    lemma_bytes_of_u32(e, n as u32);
    assert(w.subrange(0, b.len() as int) =~= b);
    if sig == 0x67 {
        assert(w.subrange(q + 5, q + 5 + n) =~= bytes);
    } else {
        assert(w.subrange(q + 4, q + 8) =~= four_bytes(e == Endianness::LittleEndian, n as u32));
        assert(w.subrange(q + 8, q + 8 + n) =~= bytes);
    }
}

/// The byte order that puts the least significant byte first.
pub open spec fn is_little(e: Endianness) -> bool {
    e == Endianness::LittleEndian
}

/// `w` holds a text header field at `q`, 8-aligned and after the fixed
/// header: the code, the signature `sig`, the length of the UTF-8 text of `t`
/// (one byte for `g`, otherwise four bytes least significant first where
/// `little`), the text and a nul.
pub open spec fn text_field_at(w: Seq<u8>, q: int, code: u8, sig: u8, t: Seq<char>, little: bool) -> bool {
    let bytes = encode_utf8(t);
    let n = bytes.len() as int;
    &&& 16 <= q
    &&& q % 8 == 0
    &&& q + 4 <= w.len()
    &&& w[q] == code
    &&& w[q + 1] == 1
    &&& w[q + 2] == sig
    &&& w[q + 3] == 0
    &&& if sig == 0x67 {
        &&& q + 6 + n <= w.len()
        &&& w[q + 4] == n as u8
        &&& w.subrange(q + 5, q + 5 + n) == bytes
        &&& w[q + 5 + n] == 0
    } else {
        &&& q + 9 + n <= w.len()
        &&& w.subrange(q + 4, q + 8) == four_bytes(little, n as u32)
        &&& w.subrange(q + 8, q + 8 + n) == bytes
        &&& w[q + 8 + n] == 0
    }
}

/// `w` holds a number header field at `q`, 8-aligned and after the fixed
/// header: the code, the signature `u`, and the four bytes of `v`, least
/// significant first where `little`.
pub open spec fn number_field_at(w: Seq<u8>, q: int, code: u8, v: u32, little: bool) -> bool {
    &&& 16 <= q
    &&& q % 8 == 0
    &&& q + 8 <= w.len()
    &&& w.subrange(q, q + 8) == seq![code, 1u8, 0x75u8, 0u8] + four_bytes(little, v)
}

/// `w` begins with `p`.
pub open spec fn begins_with(w: Seq<u8>, p: Seq<u8>) -> bool {
    &&& p.len() <= w.len()
    &&& forall|i: int| 0 <= i < p.len() ==> w[i] == p[i]
}

proof fn lemma_begins_trans(a: Seq<u8>, b: Seq<u8>, c: Seq<u8>)
    requires
        begins_with(c, b),
        begins_with(b, a),
    ensures
        begins_with(c, a),
{
}

proof fn lemma_opt_text_begins(b: Seq<u8>, f: HeaderField, o: Option<Seq<char>>, e: Endianness)
    ensures
        begins_with(put_opt_text(b, f, o, e), b),
{
    lemma_put_opt_text_extends(b, f, o, e);
    let w = put_opt_text(b, f, o, e);
    assert forall|i: int| 0 <= i < b.len() implies w[i] == b[i] by {
        assert(w.subrange(0, b.len() as int)[i] == w[i]);
    }
}

proof fn lemma_opt_number_begins(b: Seq<u8>, f: HeaderField, o: Option<u32>, e: Endianness)
    ensures
        begins_with(put_opt_number(b, f, o, e), b),
{
    lemma_put_opt_number_extends(b, f, o, e);
    let w = put_opt_number(b, f, o, e);
    assert forall|i: int| 0 <= i < b.len() implies w[i] == b[i] by {
        assert(w.subrange(0, b.len() as int)[i] == w[i]);
    }
}

/// What encoding writes past the fixed header, up to the end of the header
/// fields, stays in the bytes of the message.
proof fn lemma_header_survives(m: MessageV, w: Seq<u8>)
    requires
        begins_with(header_with_fields(m), w),
    ensures
        w.len() <= spec_encode(m).len(),
        forall|i: int| 16 <= i < w.len() ==> #[trigger] spec_encode(m)[i] == w[i],
{
    let e = m.endianness;
    let h = header_with_fields(m);
    let array_len = ((h.len() - 16) as u32) as nat;
    e.lemma_bytes_of_len(array_len, 4);
    let filled = h.subrange(0, 12) + e.bytes_of(array_len, 4) + h.subrange(16, h.len() as int);
    assert(h.len() >= 16) by {
        reveal(header_with_fields);
        e.lemma_bytes_of_len((m.body.len() as u32) as nat, 4);
        e.lemma_bytes_of_len(m.serial as nat, 4);
        e.lemma_bytes_of_len(0, 4);
        crate::wire::lemma_put_fields_extends(header_start(m), m.fields, e);
    }
    assert(filled.len() == h.len());
    lemma_pad8_extends(filled);
    let p = pad8(filled);
    assert(spec_encode(m) == p + m.body);
    assert forall|i: int| 16 <= i < w.len() implies #[trigger] spec_encode(m)[i] == w[i] by {
        assert(p.subrange(0, filled.len() as int)[i] == p[i]);
        assert(filled[i] == h[i]);
    }
}

proof fn lemma_text_field_transfers(post: Seq<u8>, w: Seq<u8>, q: int, code: u8, sig: u8, t: Seq<char>, little: bool)
    requires
        text_field_at(post, q, code, sig, t, little),
        post.len() <= w.len(),
        forall|i: int| 16 <= i < post.len() ==> #[trigger] w[i] == post[i],
    ensures
        text_field_at(w, q, code, sig, t, little),
{
    let n = encode_utf8(t).len() as int;
    if sig == 0x67 {
        assert(w.subrange(q + 5, q + 5 + n) =~= post.subrange(q + 5, q + 5 + n));
        assert(w[q + 5 + n] == post[q + 5 + n]);
    } else {
        assert(w.subrange(q + 4, q + 8) =~= post.subrange(q + 4, q + 8));
        assert(w.subrange(q + 8, q + 8 + n) =~= post.subrange(q + 8, q + 8 + n));
        assert(w[q + 8 + n] == post[q + 8 + n]);
    }
    assert(w[q] == post[q] && w[q + 1] == post[q + 1] && w[q + 2] == post[q + 2] && w[q + 3] == post[q + 3]);
}

proof fn lemma_number_field_transfers(post: Seq<u8>, w: Seq<u8>, q: int, code: u8, v: u32, little: bool)
    requires
        number_field_at(post, q, code, v, little),
        post.len() <= w.len(),
        forall|i: int| 16 <= i < post.len() ==> #[trigger] w[i] == post[i],
    ensures
        number_field_at(w, q, code, v, little),
{
    assert(w.subrange(q, q + 8) =~= post.subrange(q, q + 8));
}

/// A text field written after `b`, which is at least the fixed header long,
/// sits where it was put.
proof fn lemma_text_written(b: Seq<u8>, f: HeaderField, code: u8, sig: u8, t: Seq<char>, e: Endianness)
    requires
        b.len() >= 16,
        f.spec_code() == code,
        f.spec_sig() == sig,
    ensures
        text_field_at(crate::wire::put_text_field(b, f, t, e), up8(b.len() as int), code, sig, t,
            e == Endianness::LittleEndian),
{
    law_put_text_field(b, code, sig, t, e);
    lemma_up8(b.len() as int);
}

/// A number field written after `b`, which is at least the fixed header long,
/// sits where it was put.
proof fn lemma_number_written(b: Seq<u8>, f: HeaderField, code: u8, v: u32, e: Endianness)
    requires
        b.len() >= 16,
        f == HeaderField::ReplySerial || f == HeaderField::UnixFds,
        f.spec_code() == code,
    ensures
        number_field_at(put_number_field(b, f, v, e), up8(b.len() as int), code, v, e == Endianness::LittleEndian),
{
    law_put_number_field(b, f, v, e);
    lemma_up8(b.len() as int);
    let w = put_number_field(b, f, v, e);
    let q = up8(b.len() as int);
    assert(w.subrange(q, q + 8) =~= seq![code, 1u8, 0x75u8, 0u8] + four_bytes(e == Endianness::LittleEndian, v)) by {
        assert(w.subrange(q + 4, q + 8) == four_bytes(e == Endianness::LittleEndian, v));
        assert forall|i: int| 4 <= i < 8 implies #[trigger] w.subrange(q, q + 8)[i] == w.subrange(q + 4, q + 8)[i - 4] by {}
    }
}

/// The header after the fixed part and the first `k` header fields that
/// encoding writes, in the order it writes them.
pub open spec fn fields_prefix(m: MessageV, k: int) -> Seq<u8>
    decreases k,
{
    let f = m.fields;
    let e = m.endianness;
    if k <= 0 {
        header_start(m)
    } else {
        let b = fields_prefix(m, k - 1);
        if k == 1 {
            put_opt_text(b, HeaderField::Path, f.path, e)
        } else if k == 2 {
            put_opt_text(b, HeaderField::Interface, f.interface, e)
        } else if k == 3 {
            put_opt_text(b, HeaderField::Member, f.member, e)
        } else if k == 4 {
            put_opt_text(b, HeaderField::ErrorName, f.error_name, e)
        } else if k == 5 {
            put_opt_number(b, HeaderField::ReplySerial, f.reply_serial, e)
        } else if k == 6 {
            put_opt_text(b, HeaderField::Destination, f.destination, e)
        } else if k == 7 {
            put_opt_text(b, HeaderField::Sender, f.sender, e)
        } else if k == 8 {
            put_opt_text(b, HeaderField::Signature, f.signature, e)
        } else {
            put_opt_number(b, HeaderField::UnixFds, f.unix_fds, e)
        }
    }
}

proof fn lemma_prefix_step(m: MessageV, k: int)
    requires
        1 <= k <= 9,
    ensures
        begins_with(fields_prefix(m, k), fields_prefix(m, k - 1)),
{
    let f = m.fields;
    let e = m.endianness;
    let b = fields_prefix(m, k - 1);
    if k == 5 {
        lemma_opt_number_begins(b, HeaderField::ReplySerial, f.reply_serial, e);
    } else if k == 9 {
        lemma_opt_number_begins(b, HeaderField::UnixFds, f.unix_fds, e);
    } else if k == 1 {
        lemma_opt_text_begins(b, HeaderField::Path, f.path, e);
    } else if k == 2 {
        lemma_opt_text_begins(b, HeaderField::Interface, f.interface, e);
    } else if k == 3 {
        lemma_opt_text_begins(b, HeaderField::Member, f.member, e);
    } else if k == 4 {
        lemma_opt_text_begins(b, HeaderField::ErrorName, f.error_name, e);
    } else if k == 6 {
        lemma_opt_text_begins(b, HeaderField::Destination, f.destination, e);
    } else if k == 7 {
        lemma_opt_text_begins(b, HeaderField::Sender, f.sender, e);
    } else {
        lemma_opt_text_begins(b, HeaderField::Signature, f.signature, e);
    }
}

/// Each prefix is at least the fixed header long.
proof fn lemma_prefix_len(m: MessageV, k: int)
    requires
        0 <= k <= 9,
    ensures
        fields_prefix(m, k).len() >= 16,
    decreases k,
{
    if k == 0 {
        let e = m.endianness;
        e.lemma_bytes_of_len((m.body.len() as u32) as nat, 4);
        e.lemma_bytes_of_len(m.serial as nat, 4);
        e.lemma_bytes_of_len(0, 4);
        assert(fields_prefix(m, 0) == header_start(m));
    } else {
        lemma_prefix_len(m, k - 1);
        lemma_prefix_step(m, k);
    }
}

/// Each prefix is at least the fixed header long, and the whole header
/// begins with it.
proof fn lemma_prefix_in_header(m: MessageV, k: int)
    requires
        0 <= k <= 9,
    ensures
        fields_prefix(m, k).len() >= 16,
        begins_with(fields_prefix(m, 9), fields_prefix(m, k)),
    decreases 9 - k,
{
    lemma_prefix_len(m, k);
    if k < 9 {
        lemma_prefix_in_header(m, k + 1);
        lemma_prefix_step(m, k + 1);
        lemma_begins_trans(fields_prefix(m, k), fields_prefix(m, k + 1), fields_prefix(m, 9));
    }
}

proof fn lemma_header_is_prefix_nine(m: MessageV)
    ensures
        header_with_fields(m) == fields_prefix(m, 9),
{
    reveal(header_with_fields);
    reveal_with_fuel(fields_prefix, 10);
}

/// A text field that encoding writes as field `k` is in the message's bytes.
proof fn lemma_text_in_encoding(m: MessageV, k: int, f: HeaderField, code: u8, sig: u8, t: Seq<char>)
    requires
        1 <= k <= 9,
        f.spec_code() == code,
        f.spec_sig() == sig,
        fields_prefix(m, k) == crate::wire::put_text_field(fields_prefix(m, k - 1), f, t, m.endianness),
    ensures
        exists|q: int| #[trigger] text_field_at(spec_encode(m), q, code, sig, t, is_little(m.endianness)),
{
    let b = fields_prefix(m, k - 1);
    lemma_prefix_in_header(m, k - 1);
    lemma_prefix_in_header(m, k);
    lemma_header_is_prefix_nine(m);
    lemma_header_survives(m, fields_prefix(m, k));
    lemma_text_written(b, f, code, sig, t, m.endianness);
    lemma_text_field_transfers(fields_prefix(m, k), spec_encode(m), up8(b.len() as int), code, sig, t,
        is_little(m.endianness));
}

/// A number field that encoding writes as field `k` is in the message's bytes.
proof fn lemma_number_in_encoding(m: MessageV, k: int, f: HeaderField, code: u8, v: u32)
    requires
        1 <= k <= 9,
        f == HeaderField::ReplySerial || f == HeaderField::UnixFds,
        f.spec_code() == code,
        fields_prefix(m, k) == put_number_field(fields_prefix(m, k - 1), f, v, m.endianness),
    ensures
        exists|q: int| #[trigger] number_field_at(spec_encode(m), q, code, v, is_little(m.endianness)),
{
    let b = fields_prefix(m, k - 1);
    lemma_prefix_in_header(m, k - 1);
    lemma_prefix_in_header(m, k);
    lemma_header_is_prefix_nine(m);
    lemma_header_survives(m, fields_prefix(m, k));
    lemma_number_written(b, f, code, v, m.endianness);
    lemma_number_field_transfers(fields_prefix(m, k), spec_encode(m), up8(b.len() as int), code, v,
        is_little(m.endianness));
}

/// Every header field of a message is in its bytes as the wire format lays it
/// out, with numbers and text lengths in the message's own byte order: the
/// path (code 1, signature `o`), interface (2), member (3), error name (4),
/// destination (6) and sender (7) with signature `s` and a four-byte length;
/// the signature (8, `g`) with a one-byte length; the reply serial (5) and
/// the count of file descriptors (9) as four bytes with signature `u`.
pub proof fn law_encode_fields_in_message_order(m: MessageV)
    ensures
        m.fields.path matches Some(t) ==> exists|q: int|
            #[trigger] text_field_at(spec_encode(m), q, 1, 0x6f, t, is_little(m.endianness)),
        m.fields.interface matches Some(t) ==> exists|q: int|
            #[trigger] text_field_at(spec_encode(m), q, 2, 0x73, t, is_little(m.endianness)),
        m.fields.member matches Some(t) ==> exists|q: int|
            #[trigger] text_field_at(spec_encode(m), q, 3, 0x73, t, is_little(m.endianness)),
        m.fields.error_name matches Some(t) ==> exists|q: int|
            #[trigger] text_field_at(spec_encode(m), q, 4, 0x73, t, is_little(m.endianness)),
        m.fields.reply_serial matches Some(v) ==> exists|q: int|
            #[trigger] number_field_at(spec_encode(m), q, 5, v, is_little(m.endianness)),
        m.fields.destination matches Some(t) ==> exists|q: int|
            #[trigger] text_field_at(spec_encode(m), q, 6, 0x73, t, is_little(m.endianness)),
        m.fields.sender matches Some(t) ==> exists|q: int|
            #[trigger] text_field_at(spec_encode(m), q, 7, 0x73, t, is_little(m.endianness)),
        m.fields.signature matches Some(t) ==> exists|q: int|
            #[trigger] text_field_at(spec_encode(m), q, 8, 0x67, t, is_little(m.endianness)),
        m.fields.unix_fds matches Some(v) ==> exists|q: int|
            #[trigger] number_field_at(spec_encode(m), q, 9, v, is_little(m.endianness)),
{
    let f = m.fields;
    reveal_with_fuel(fields_prefix, 2);
    if let Some(t) = f.path {
        lemma_text_in_encoding(m, 1, HeaderField::Path, 1, 0x6f, t);
    }
    if let Some(t) = f.interface {
        lemma_text_in_encoding(m, 2, HeaderField::Interface, 2, 0x73, t);
    }
    if let Some(t) = f.member {
        lemma_text_in_encoding(m, 3, HeaderField::Member, 3, 0x73, t);
    }
    if let Some(t) = f.error_name {
        lemma_text_in_encoding(m, 4, HeaderField::ErrorName, 4, 0x73, t);
    }
    if let Some(v) = f.reply_serial {
        lemma_number_in_encoding(m, 5, HeaderField::ReplySerial, 5, v);
    }
    if let Some(t) = f.destination {
        lemma_text_in_encoding(m, 6, HeaderField::Destination, 6, 0x73, t);
    }
    if let Some(t) = f.sender {
        lemma_text_in_encoding(m, 7, HeaderField::Sender, 7, 0x73, t);
    }
    if let Some(t) = f.signature {
        lemma_text_in_encoding(m, 8, HeaderField::Signature, 8, 0x67, t);
    }
    if let Some(v) = f.unix_fds {
        lemma_number_in_encoding(m, 9, HeaderField::UnixFds, 9, v);
    }
}

/// What a decoded message holds of its fixed header, read byte by byte: the
/// byte order from byte 0 (`l` or `B`), the type from byte 1, the flags and
/// the version as bytes 2 and 3, the body length and the serial from bytes 4
/// to 8 and 8 to 12 in that byte order; the body is the body length's bytes
/// from the end of the declared field array (bytes 12 to 16) after the 16
/// fixed bytes, padded to a multiple of 8, and the message ends there.
pub proof fn law_decode_fixed_header(s: Seq<u8>)
    ensures
        spec_decode(s) matches Ok((m, n)) ==> {
            let little = s[0] == 0x6c;
            let a = four_bytes_value(little, s.subrange(12, 16));
            let bl = four_bytes_value(little, s.subrange(4, 8));
            &&& s.len() >= 16
            &&& s[0] == 0x6c || s[0] == 0x42
            &&& is_little(m.endianness) == little
            &&& s[1] == 0 ==> m.message_type == MessageType::Invalid
            &&& s[1] == 1 ==> m.message_type == MessageType::MethodCall
            &&& s[1] == 2 ==> m.message_type == MessageType::MethodReturn
            &&& s[1] == 3 ==> m.message_type == MessageType::Error
            &&& s[1] == 4 ==> m.message_type == MessageType::Signal
            &&& s[1] <= 4
            &&& m.flags == s[2]
            &&& m.version == s[3]
            &&& m.body_length == bl
            &&& m.serial == four_bytes_value(little, s.subrange(8, 12))
            &&& m.serial != 0
            &&& n == up8(16 + a) + bl
            &&& n <= s.len()
            &&& m.body == s.subrange(up8(16 + a), n)
        },
        s.len() >= 2 && (s[0] == 0x6c || s[0] == 0x42) && s[1] > 4
            ==> spec_decode(s) == Err::<(MessageV, int), DecodeError>(DecodeError::UnknownMessageType),
{
    if s.len() >= 16 && (s[0] == 0x6c || s[0] == 0x42) {
        let e = Endianness::spec_from_marker(s[0])->Ok_0;
        lemma_value_of_four(e, s.subrange(12, 16));
        lemma_value_of_four(e, s.subrange(4, 8));
        lemma_value_of_four(e, s.subrange(8, 12));
        lemma_up8(16 + four_bytes_value(s[0] == 0x6c, s.subrange(12, 16)));
    }
}

/// The fixed header that encoding writes, byte by byte: the byte order's
/// marker (`l` or `B`), the type's code, the flags, the version, the body's
/// length and the serial in the message's byte order, and the length of the
/// field array; the body follows the header padded to a multiple of 8 and
/// ends the bytes.
pub proof fn law_encode_fixed_header(m: MessageV)
    ensures
        ({
            let w = spec_encode(m);
            let little = is_little(m.endianness);
            &&& w.len() >= 16
            &&& w[0] == (if little { 0x6cu8 } else { 0x42u8 })
            &&& w[1] == match m.message_type {
                MessageType::Invalid => 0u8,
                MessageType::MethodCall => 1u8,
                MessageType::MethodReturn => 2u8,
                MessageType::Error => 3u8,
                MessageType::Signal => 4u8,
            }
            &&& w[2] == m.flags
            &&& w[3] == m.version
            &&& w.subrange(4, 8) == four_bytes(little, m.body.len() as u32)
            &&& w.subrange(8, 12) == four_bytes(little, m.serial)
            &&& w.skip(w.len() - m.body.len()) == m.body
            &&& (w.len() - m.body.len()) % 8 == 0
            &&& header_with_fields(m).len() <= 16 + 0xffff_ffff ==> w.len() - m.body.len() == up8(
                16 + four_bytes_value(little, w.subrange(12, 16)),
            )
        }),
{
    let e = m.endianness;
    let little = is_little(e);
    let w = spec_encode(m);
    let h = header_with_fields(m);
    let h0 = header_start(m);
    e.lemma_bytes_of_len((m.body.len() as u32) as nat, 4);
    e.lemma_bytes_of_len(m.serial as nat, 4);
    e.lemma_bytes_of_len(0, 4);
    assert(h0.len() == 16);
    assert(begins_with(h, h0)) by {
        reveal(header_with_fields);
        crate::wire::lemma_put_fields_extends(h0, m.fields, e);
        assert forall|i: int| 0 <= i < h0.len() implies h[i] == h0[i] by {
            assert(h.subrange(0, h0.len() as int)[i] == h[i]);
        }
    }
    let array_len = ((h.len() - 16) as u32) as nat;
    e.lemma_bytes_of_len(array_len, 4);
    let filled = h.subrange(0, 12) + e.bytes_of(array_len, 4) + h.subrange(16, h.len() as int);
    assert(filled.len() == h.len());
    lemma_pad8_extends(filled);
    let p = pad8(filled);
    assert(w == p + m.body);
    assert forall|i: int| 0 <= i < 16 implies #[trigger] w[i] == filled[i] by {
        assert(p.subrange(0, filled.len() as int)[i] == p[i]);
    }
    lemma_bytes_of_u32(e, m.body.len() as u32);
    lemma_bytes_of_u32(e, m.serial);
    assert(w[0] == h0[0] && w[1] == h0[1] && w[2] == h0[2] && w[3] == h0[3]);
    assert(w.subrange(4, 8) =~= h0.subrange(4, 8)) by {
        assert forall|i: int| 0 <= i < 4 implies #[trigger] w.subrange(4, 8)[i] == h0.subrange(4, 8)[i] by {
            assert(w[4 + i] == filled[4 + i]);
        }
    }
    assert(h0.subrange(4, 8) =~= e.bytes_of((m.body.len() as u32) as nat, 4));
    assert(w.subrange(8, 12) =~= h0.subrange(8, 12)) by {
        assert forall|i: int| 0 <= i < 4 implies #[trigger] w.subrange(8, 12)[i] == h0.subrange(8, 12)[i] by {
            assert(w[8 + i] == filled[8 + i]);
        }
    }
    assert(h0.subrange(8, 12) =~= e.bytes_of(m.serial as nat, 4));
    crate::wire::lemma_encode_header_aligned(m);
    lemma_up8(filled.len() as int);
    if h.len() <= 16 + 0xffff_ffff {
        assert(w.subrange(12, 16) =~= e.bytes_of(array_len, 4)) by {
            assert forall|i: int| 0 <= i < 4 implies #[trigger] w.subrange(12, 16)[i] == e.bytes_of(array_len, 4)[i] by {
                assert(w[12 + i] == filled[12 + i]);
            }
        }
        e.lemma_u32_roundtrip(array_len as u32);
        lemma_value_of_four(e, w.subrange(12, 16));
        assert(w.len() - m.body.len() == p.len());
    }
}

} // verus!
