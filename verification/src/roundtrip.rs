//! Decoding what encoding wrote gives the message back.
use vstd::prelude::*;
use vstd::utf8::encode_utf8;

use crate::endianness::Endianness;
use crate::object_path::is_valid_path;
use crate::wire::{
    decode_field, decode_fields, header_start, header_with_fields, lemma_pad8_extends,
    lemma_put_opt_number_extends, lemma_put_opt_text_extends, no_fields, pad8, pad_len,
    put_number_field, put_opt_number, put_opt_text, put_text_field, read_u32, read_u8,
    read_variant_sig, round8, set_number, set_text, spec_decode, spec_encode, FieldsV, HeaderField,
    MessageType, MessageV, SIG_SIGNATURE,
};

verus! {

/// `s` and `t` hold the same bytes at positions `lo` up to `hi`.
pub open spec fn agree_on(s: Seq<u8>, t: Seq<u8>, lo: int, hi: int) -> bool {
    &&& 0 <= lo <= hi
    &&& hi <= s.len()
    &&& hi <= t.len()
    &&& forall|i: int| lo <= i < hi ==> #[trigger] s[i] == t[i]
}

/// A text value that its field can carry and give back: its length fits the
/// length prefix, and a path is a valid object path.
pub open spec fn text_fits(f: HeaderField, t: Seq<char>) -> bool {
    &&& encode_utf8(t).len() <= 0xffff_ffff
    &&& f == HeaderField::Signature ==> encode_utf8(t).len() < 0x100
    &&& f == HeaderField::Path ==> is_valid_path(encode_utf8(t))
}

pub open spec fn opt_text_fits(f: HeaderField, o: Option<Seq<char>>) -> bool {
    match o {
        Some(t) => text_fits(f, t),
        None => true,
    }
}

pub open spec fn set_opt_text(acc: FieldsV, f: HeaderField, o: Option<Seq<char>>) -> FieldsV {
    match o {
        Some(t) => set_text(acc, f, t),
        None => acc,
    }
}

pub open spec fn set_opt_number(acc: FieldsV, f: HeaderField, o: Option<u32>) -> FieldsV {
    match o {
        Some(v) => set_number(acc, f, v),
        None => acc,
    }
}

/// The messages that encoding writes and decoding gives back: the serial is
/// not zero, the body fits the `u32` body length, the count of file
/// descriptors is not zero, every text field fits its length prefix, the path
/// is valid, and the header fields fit the `u32` array length.
pub open spec fn encodable(m: MessageV) -> bool {
    let f = m.fields;
    &&& m.serial != 0
    &&& m.body.len() <= 0xffff_ffff
    &&& f.unix_fds != Some(0u32)
    &&& opt_text_fits(HeaderField::Path, f.path)
    &&& opt_text_fits(HeaderField::Interface, f.interface)
    &&& opt_text_fits(HeaderField::Member, f.member)
    &&& opt_text_fits(HeaderField::ErrorName, f.error_name)
    &&& opt_text_fits(HeaderField::Destination, f.destination)
    &&& opt_text_fits(HeaderField::Sender, f.sender)
    &&& opt_text_fits(HeaderField::Signature, f.signature)
    &&& header_with_fields(m).len() - 16 <= 0xffff_ffff
}

proof fn lemma_field_code(f: HeaderField)
    ensures
        HeaderField::spec_from_code(f.spec_code()) == Ok::<HeaderField, crate::wire::DecodeError>(f),
{
}

proof fn lemma_round8(n: int)
    requires
        n >= 0,
    ensures
        round8(n) == n + pad_len(n),
        round8(n) % 8 == 0,
        n <= round8(n) < n + 8,
{
}

/// A text field written after `b` decodes, from the end of `b`, as that field.
#[verifier::spinoff_prover]
proof fn lemma_text_field(s: Seq<u8>, b: Seq<u8>, f: HeaderField, t: Seq<char>, e: Endianness, acc: FieldsV)
    requires
        f != HeaderField::ReplySerial && f != HeaderField::UnixFds,
        text_fits(f, t),
        agree_on(s, put_text_field(b, f, t, e), b.len() as int, put_text_field(b, f, t, e).len() as int),
    ensures
        b.len() < put_text_field(b, f, t, e).len(),
        decode_field(s, b.len() as int, e, acc) == Ok::<(FieldsV, int), crate::wire::DecodeError>(
            (set_text(acc, f, t), put_text_field(b, f, t, e).len() as int),
        ),
{
    let bytes = encode_utf8(t);
    let n = b.len() as int;
    let tt = put_text_field(b, f, t, e);
    lemma_round8(n);
    lemma_pad8_extends(b);
    let q = round8(n);
    let head = pad8(b) + seq![f.spec_code(), 1u8, f.spec_sig(), 0u8];
    assert(head.len() == q + 4);
    let len_part = if f.spec_sig() == SIG_SIGNATURE {
        seq![bytes.len() as u8]
    } else {
        e.bytes_of((bytes.len() as u32) as nat, 4)
    };
    e.lemma_u32_roundtrip(bytes.len() as u32);
    assert(tt == head + len_part + bytes + seq![0u8]);
    let ll = len_part.len() as int;
    assert(tt.len() == q + 4 + ll + bytes.len() + 1);
    assert(s[q] == tt[q]);
    assert(s[q + 1] == tt[q + 1]);
    assert(s[q + 2] == tt[q + 2]);
    assert(s[q + 3] == tt[q + 3]);
    assert(tt[q] == f.spec_code());
    assert(tt[q + 1] == 1);
    assert(tt[q + 2] == f.spec_sig());
    assert(tt[q + 3] == 0);
    lemma_field_code(f);
    assert(read_u8(s, q) == Ok::<(u8, int), crate::wire::DecodeError>((f.spec_code(), q + 1)));
    assert(read_variant_sig(s, q + 1, f.spec_sig()) == Ok::<int, crate::wire::DecodeError>(q + 4));
    let start = q + 4 + ll;
    assert(s.subrange(start, start + bytes.len()) =~= bytes) by {
        assert forall|i: int| 0 <= i < bytes.len() implies s.subrange(start, start + bytes.len())[i] == bytes[i] by {
            assert(s[start + i] == tt[start + i]);
        }
    }
    assert(s[start + bytes.len()] == tt[start + bytes.len()]);
    assert(tt[start + bytes.len()] == 0);
    vstd::utf8::encode_utf8_valid_utf8(t);
    vstd::utf8::encode_utf8_decode_utf8(t);
    if f.spec_sig() == SIG_SIGNATURE {
        assert(s[q + 4] == tt[q + 4]);
        assert(tt[q + 4] == bytes.len() as u8);
        assert(crate::wire::read_sig_string(s, q + 4) == Ok::<(Seq<char>, int), crate::wire::DecodeError>((t, tt.len() as int)));
    } else {
        assert(s.subrange(q + 4, q + 8) =~= len_part) by {
            assert forall|i: int| 0 <= i < 4 implies s.subrange(q + 4, q + 8)[i] == len_part[i] by {
                assert(s[q + 4 + i] == tt[q + 4 + i]);
            }
        }
        assert(read_u32(s, q + 4, e) == Ok::<(u32, int), crate::wire::DecodeError>((bytes.len() as u32, q + 8)));
        assert(crate::wire::read_string(s, q + 4, e) == Ok::<(Seq<char>, int), crate::wire::DecodeError>((t, tt.len() as int)));
    }
}

/// A number field written after `b` decodes, from the end of `b`, as that field.
proof fn lemma_number_field(s: Seq<u8>, b: Seq<u8>, f: HeaderField, v: u32, e: Endianness, acc: FieldsV)
    requires
        f == HeaderField::ReplySerial || f == HeaderField::UnixFds,
        agree_on(s, put_number_field(b, f, v, e), b.len() as int, put_number_field(b, f, v, e).len() as int),
    ensures
        b.len() < put_number_field(b, f, v, e).len(),
        decode_field(s, b.len() as int, e, acc) == Ok::<(FieldsV, int), crate::wire::DecodeError>(
            (set_number(acc, f, v), put_number_field(b, f, v, e).len() as int),
        ),
{
    let n = b.len() as int;
    let tt = put_number_field(b, f, v, e);
    lemma_round8(n);
    lemma_pad8_extends(b);
    let q = round8(n);
    e.lemma_u32_roundtrip(v);
    assert(tt.len() == q + 8);
    assert(s[q] == tt[q]);
    assert(s[q + 1] == tt[q + 1]);
    assert(s[q + 2] == tt[q + 2]);
    assert(s[q + 3] == tt[q + 3]);
    lemma_field_code(f);
    assert(read_variant_sig(s, q + 1, f.spec_sig()) == Ok::<int, crate::wire::DecodeError>(q + 4));
    assert(s.subrange(q + 4, q + 8) =~= e.bytes_of(v as nat, 4)) by {
        assert forall|i: int| 0 <= i < 4 implies s.subrange(q + 4, q + 8)[i] == e.bytes_of(v as nat, 4)[i] by {
            assert(s[q + 4 + i] == tt[q + 4 + i]);
        }
    }
}

/// `a` is a prefix of `b`.
pub open spec fn is_prefix(a: Seq<u8>, b: Seq<u8>) -> bool {
    a.len() <= b.len() && b.subrange(0, a.len() as int) =~= a
}

proof fn lemma_prefix_trans(a: Seq<u8>, b: Seq<u8>, c: Seq<u8>)
    requires
        is_prefix(a, b),
        is_prefix(b, c),
    ensures
        is_prefix(a, c),
{
    assert forall|i: int| 0 <= i < a.len() implies c.subrange(0, a.len() as int)[i] == a[i] by {
        assert(c.subrange(0, b.len() as int)[i] == b[i]);
        assert(b.subrange(0, a.len() as int)[i] == a[i]);
    }
}

/// One optional text field: decoding from where it starts goes on from where it ends.
proof fn lemma_step_text(s: Seq<u8>, b: Seq<u8>, f: HeaderField, o: Option<Seq<char>>, e: Endianness, acc: FieldsV, end: int)
    requires
        f != HeaderField::ReplySerial && f != HeaderField::UnixFds,
        opt_text_fits(f, o),
        put_opt_text(b, f, o, e).len() <= end,
        agree_on(s, put_opt_text(b, f, o, e), b.len() as int, put_opt_text(b, f, o, e).len() as int),
    ensures
        decode_fields(s, b.len() as int, end, e, acc) == decode_fields(
            s,
            put_opt_text(b, f, o, e).len() as int,
            end,
            e,
            set_opt_text(acc, f, o),
        ),
{
    if let Some(t) = o {
        lemma_text_field(s, b, f, t, e, acc);
    }
}

/// One optional number field: decoding from where it starts goes on from where it ends.
proof fn lemma_step_number(s: Seq<u8>, b: Seq<u8>, f: HeaderField, o: Option<u32>, e: Endianness, acc: FieldsV, end: int)
    requires
        f == HeaderField::ReplySerial || f == HeaderField::UnixFds,
        put_opt_number(b, f, o, e).len() <= end,
        agree_on(s, put_opt_number(b, f, o, e), b.len() as int, put_opt_number(b, f, o, e).len() as int),
    ensures
        decode_fields(s, b.len() as int, end, e, acc) == decode_fields(
            s,
            put_opt_number(b, f, o, e).len() as int,
            end,
            e,
            set_opt_number(acc, f, o),
        ),
{
    if let Some(v) = o {
        lemma_number_field(s, b, f, v, e, acc);
    }
}

/// Where `s` holds the fields that `put_fields` wrote after the 16-byte
/// header start `h0`, decoding the fields gives them back and ends where they end.
#[verifier::spinoff_prover]
#[verifier::rlimit(60)]
proof fn lemma_decode_written_fields(s: Seq<u8>, m: MessageV)
    requires
        encodable(m),
        agree_on(s, header_with_fields(m), 16, header_with_fields(m).len() as int),
        header_start(m).len() == 16,
    ensures
        decode_fields(s, 16, header_with_fields(m).len() as int, m.endianness, no_fields())
            == Ok::<(FieldsV, int), crate::wire::DecodeError>((m.fields, header_with_fields(m).len() as int)),
{
    reveal(header_with_fields);
    let e = m.endianness;
    let f = m.fields;
    let h = header_with_fields(m);
    let end = h.len() as int;
    let b0 = header_start(m);
    let b1 = put_opt_text(b0, HeaderField::Path, f.path, e);
    let b2 = put_opt_text(b1, HeaderField::Interface, f.interface, e);
    let b3 = put_opt_text(b2, HeaderField::Member, f.member, e);
    let b4 = put_opt_text(b3, HeaderField::ErrorName, f.error_name, e);
    let b5 = put_opt_number(b4, HeaderField::ReplySerial, f.reply_serial, e);
    let b6 = put_opt_text(b5, HeaderField::Destination, f.destination, e);
    let b7 = put_opt_text(b6, HeaderField::Sender, f.sender, e);
    let b8 = put_opt_text(b7, HeaderField::Signature, f.signature, e);
    let b9 = put_opt_number(b8, HeaderField::UnixFds, f.unix_fds, e);
    assert(b9 == h);
    lemma_put_opt_text_extends(b0, HeaderField::Path, f.path, e);
    lemma_put_opt_text_extends(b1, HeaderField::Interface, f.interface, e);
    lemma_put_opt_text_extends(b2, HeaderField::Member, f.member, e);
    lemma_put_opt_text_extends(b3, HeaderField::ErrorName, f.error_name, e);
    lemma_put_opt_number_extends(b4, HeaderField::ReplySerial, f.reply_serial, e);
    lemma_put_opt_text_extends(b5, HeaderField::Destination, f.destination, e);
    lemma_put_opt_text_extends(b6, HeaderField::Sender, f.sender, e);
    lemma_put_opt_text_extends(b7, HeaderField::Signature, f.signature, e);
    lemma_put_opt_number_extends(b8, HeaderField::UnixFds, f.unix_fds, e);
    assert(is_prefix(b8, h));
    lemma_prefix_trans(b7, b8, h);
    lemma_prefix_trans(b6, b7, h);
    lemma_prefix_trans(b5, b6, h);
    lemma_prefix_trans(b4, b5, h);
    lemma_prefix_trans(b3, b4, h);
    lemma_prefix_trans(b2, b3, h);
    lemma_prefix_trans(b1, b2, h);
    assert(agree_on(s, b1, b0.len() as int, b1.len() as int)) by {
        assert forall|i: int| b0.len() <= i < b1.len() implies #[trigger] s[i] == b1[i] by {
            assert(h.subrange(0, b1.len() as int)[i] == h[i]);
        }
    }
    assert(agree_on(s, b2, b1.len() as int, b2.len() as int)) by {
        assert forall|i: int| b1.len() <= i < b2.len() implies #[trigger] s[i] == b2[i] by {
            assert(h.subrange(0, b2.len() as int)[i] == h[i]);
        }
    }
    assert(agree_on(s, b3, b2.len() as int, b3.len() as int)) by {
        assert forall|i: int| b2.len() <= i < b3.len() implies #[trigger] s[i] == b3[i] by {
            assert(h.subrange(0, b3.len() as int)[i] == h[i]);
        }
    }
    assert(agree_on(s, b4, b3.len() as int, b4.len() as int)) by {
        assert forall|i: int| b3.len() <= i < b4.len() implies #[trigger] s[i] == b4[i] by {
            assert(h.subrange(0, b4.len() as int)[i] == h[i]);
        }
    }
    assert(agree_on(s, b5, b4.len() as int, b5.len() as int)) by {
        assert forall|i: int| b4.len() <= i < b5.len() implies #[trigger] s[i] == b5[i] by {
            assert(h.subrange(0, b5.len() as int)[i] == h[i]);
        }
    }
    assert(agree_on(s, b6, b5.len() as int, b6.len() as int)) by {
        assert forall|i: int| b5.len() <= i < b6.len() implies #[trigger] s[i] == b6[i] by {
            assert(h.subrange(0, b6.len() as int)[i] == h[i]);
        }
    }
    assert(agree_on(s, b7, b6.len() as int, b7.len() as int)) by {
        assert forall|i: int| b6.len() <= i < b7.len() implies #[trigger] s[i] == b7[i] by {
            assert(h.subrange(0, b7.len() as int)[i] == h[i]);
        }
    }
    assert(agree_on(s, b8, b7.len() as int, b8.len() as int)) by {
        assert forall|i: int| b7.len() <= i < b8.len() implies #[trigger] s[i] == b8[i] by {
            assert(h.subrange(0, b8.len() as int)[i] == h[i]);
        }
    }
    let a0 = no_fields();
    let a1 = set_opt_text(a0, HeaderField::Path, f.path);
    let a2 = set_opt_text(a1, HeaderField::Interface, f.interface);
    let a3 = set_opt_text(a2, HeaderField::Member, f.member);
    let a4 = set_opt_text(a3, HeaderField::ErrorName, f.error_name);
    let a5 = set_opt_number(a4, HeaderField::ReplySerial, f.reply_serial);
    let a6 = set_opt_text(a5, HeaderField::Destination, f.destination);
    let a7 = set_opt_text(a6, HeaderField::Sender, f.sender);
    let a8 = set_opt_text(a7, HeaderField::Signature, f.signature);
    let a9 = set_opt_number(a8, HeaderField::UnixFds, f.unix_fds);
    lemma_step_text(s, b0, HeaderField::Path, f.path, e, a0, end);
    lemma_step_text(s, b1, HeaderField::Interface, f.interface, e, a1, end);
    lemma_step_text(s, b2, HeaderField::Member, f.member, e, a2, end);
    lemma_step_text(s, b3, HeaderField::ErrorName, f.error_name, e, a3, end);
    lemma_step_number(s, b4, HeaderField::ReplySerial, f.reply_serial, e, a4, end);
    lemma_step_text(s, b5, HeaderField::Destination, f.destination, e, a5, end);
    lemma_step_text(s, b6, HeaderField::Sender, f.sender, e, a6, end);
    lemma_step_text(s, b7, HeaderField::Signature, f.signature, e, a7, end);
    lemma_step_number(s, b8, HeaderField::UnixFds, f.unix_fds, e, a8, end);
    assert(a9 == f);
}

/// The header start is 16 bytes long and holds the header values at their offsets.
proof fn lemma_header_start(m: MessageV)
    ensures
        header_start(m).len() == 16,
        header_start(m)[0] == m.endianness.spec_marker(),
        header_start(m)[1] == m.message_type.spec_code(),
        header_start(m)[2] == m.flags,
        header_start(m)[3] == m.version,
        header_start(m).subrange(4, 8) =~= m.endianness.bytes_of((m.body.len() as u32) as nat, 4),
        header_start(m).subrange(8, 12) =~= m.endianness.bytes_of(m.serial as nat, 4),
{
    let e = m.endianness;
    e.lemma_bytes_of_len((m.body.len() as u32) as nat, 4);
    e.lemma_bytes_of_len(m.serial as nat, 4);
    e.lemma_bytes_of_len(0, 4);
}

/// The decoding of `s` where its header values and fields read as those of `m`.
proof fn lemma_decode_when_reads(s: Seq<u8>, m: MessageV, end: int)
    requires
        read_u8(s, 0) == Ok::<(u8, int), crate::wire::DecodeError>((m.endianness.spec_marker(), 1)),
        read_u8(s, 1) == Ok::<(u8, int), crate::wire::DecodeError>((m.message_type.spec_code(), 2)),
        read_u8(s, 2) == Ok::<(u8, int), crate::wire::DecodeError>((m.flags, 3)),
        read_u8(s, 3) == Ok::<(u8, int), crate::wire::DecodeError>((m.version, 4)),
        read_u32(s, 4, m.endianness) == Ok::<(u32, int), crate::wire::DecodeError>((m.body_length, 8)),
        read_u32(s, 8, m.endianness) == Ok::<(u32, int), crate::wire::DecodeError>((m.serial, 12)),
        m.serial != 0,
        16 <= end <= 16 + 0xffff_ffff,
        read_u32(s, 12, m.endianness) == Ok::<(u32, int), crate::wire::DecodeError>(((end - 16) as u32, 16)),
        decode_fields(s, 16, end, m.endianness, no_fields()) == Ok::<(FieldsV, int), crate::wire::DecodeError>((m.fields, end)),
        round8(end) + m.body_length <= s.len(),
        m.body_length == m.body.len(),
        s.subrange(round8(end), round8(end) + m.body_length) == m.body,
    ensures
        spec_decode(s) == Ok::<(MessageV, int), crate::wire::DecodeError>((m, round8(end) + m.body_length)),
{
    crate::endianness::lemma_marker_roundtrip(m.endianness, 0);
    assert(MessageType::spec_from_code(m.message_type.spec_code()) == Ok::<MessageType, u8>(m.message_type));
}

/// `m` with the body length that encoding writes for it: that of its body.
pub open spec fn with_body_length(m: MessageV) -> MessageV {
    MessageV { body_length: m.body.len() as u32, ..m }
}

/// Encoding does not read the `body_length` value.
proof fn lemma_encode_ignores_body_length(m: MessageV)
    ensures
        header_with_fields(with_body_length(m)) == header_with_fields(m),
        spec_encode(with_body_length(m)) == spec_encode(m),
{
    reveal(header_with_fields);
    assert(header_start(with_body_length(m)) == header_start(m));
}

/// Reading back a written message: decoding the bytes that encoding writes for
/// a message, followed by any bytes at all, gives back that message, with the
/// length of its body as the body length, and takes exactly the bytes written.
pub proof fn lemma_decode_encode(m: MessageV, rest: Seq<u8>)
    requires
        encodable(m),
    ensures
        spec_decode(spec_encode(m) + rest) == Ok::<(MessageV, int), crate::wire::DecodeError>(
            (with_body_length(m), spec_encode(m).len() as int),
        ),
{
    lemma_encode_ignores_body_length(m);
    lemma_decode_encode_exact(with_body_length(m), rest);
}

#[verifier::spinoff_prover]
proof fn lemma_decode_encode_exact(m: MessageV, rest: Seq<u8>)
    requires
        encodable(m),
        m.body_length == m.body.len(),
    ensures
        spec_decode(spec_encode(m) + rest) == Ok::<(MessageV, int), crate::wire::DecodeError>(
            (m, spec_encode(m).len() as int),
        ),
{
    let e = m.endianness;
    let h = header_with_fields(m);
    let h0 = header_start(m);
    lemma_header_start(m);
    assert(is_prefix(h0, h)) by {
        reveal(header_with_fields);
        crate::wire::lemma_put_fields_extends(h0, m.fields, e);
    }
    let array_len = (h.len() - 16) as u32;
    e.lemma_u32_roundtrip(array_len);
    e.lemma_u32_roundtrip(m.body.len() as u32);
    e.lemma_u32_roundtrip(m.serial);
    let filled = h.subrange(0, 12) + e.bytes_of(array_len as nat, 4) + h.subrange(16, h.len() as int);
    assert(filled.len() == h.len());
    lemma_pad8_extends(filled);
    let p = pad8(filled);
    assert(spec_encode(m) == p + m.body);
    let s = spec_encode(m) + rest;
    assert(s =~= p + (m.body + rest));
    assert forall|i: int| 0 <= i < filled.len() implies #[trigger] s[i] == filled[i] by {
        assert(p.subrange(0, filled.len() as int)[i] == p[i]);
    }
    assert forall|i: int| 16 <= i < h.len() implies #[trigger] s[i] == h[i] by {
        assert(s[i] == filled[i]);
    }
    assert forall|i: int| 0 <= i < 12 implies #[trigger] s[i] == h0[i] by {
        assert(s[i] == filled[i]);
        assert(h.subrange(0, 16)[i] == h[i]);
    }
    assert(s.subrange(4, 8) =~= h0.subrange(4, 8)) by {
        assert forall|i: int| 0 <= i < 4 implies s.subrange(4, 8)[i] == h0.subrange(4, 8)[i] by {
            assert(s[4 + i] == h0[4 + i]);
        }
    }
    assert(s.subrange(8, 12) =~= h0.subrange(8, 12)) by {
        assert forall|i: int| 0 <= i < 4 implies s.subrange(8, 12)[i] == h0.subrange(8, 12)[i] by {
            assert(s[8 + i] == h0[8 + i]);
        }
    }
    assert(s.subrange(12, 16) =~= e.bytes_of(array_len as nat, 4)) by {
        assert forall|i: int| 0 <= i < 4 implies s.subrange(12, 16)[i] == e.bytes_of(array_len as nat, 4)[i] by {
            assert(s[12 + i] == filled[12 + i]);
        }
    }
    assert(s[0] == e.spec_marker());
    assert(s[1] == m.message_type.spec_code());
    assert(s[2] == m.flags);
    assert(s[3] == m.version);
    lemma_decode_written_fields(s, m);
    lemma_round8(h.len() as int);
    assert(s.subrange(p.len() as int, (p.len() + m.body.len()) as int) =~= m.body);
    lemma_decode_when_reads(s, m, h.len() as int);
}

/// Where the fixed part of an encoded message puts its values, and how long
/// the encoding is.
#[verifier::spinoff_prover]
proof fn lemma_encode_layout(m: MessageV)
    requires
        encodable(m),
    ensures
        header_with_fields(m).len() >= 16,
        spec_encode(m).len() == round8(header_with_fields(m).len() as int) + m.body.len(),
        spec_encode(m)[0] == m.endianness.spec_marker(),
        spec_encode(m).subrange(4, 8) =~= m.endianness.bytes_of((m.body.len() as u32) as nat, 4),
        spec_encode(m).subrange(12, 16) =~= m.endianness.bytes_of(
            ((header_with_fields(m).len() - 16) as u32) as nat,
            4,
        ),
{
    let e = m.endianness;
    let h = header_with_fields(m);
    let h0 = header_start(m);
    lemma_header_start(m);
    assert(is_prefix(h0, h)) by {
        reveal(header_with_fields);
        crate::wire::lemma_put_fields_extends(h0, m.fields, e);
    }
    let array_len = (h.len() - 16) as u32;
    e.lemma_bytes_of_len(array_len as nat, 4);
    let filled = h.subrange(0, 12) + e.bytes_of(array_len as nat, 4) + h.subrange(16, h.len() as int);
    assert(filled.len() == h.len());
    lemma_pad8_extends(filled);
    let p = pad8(filled);
    let s = spec_encode(m);
    assert(s == p + m.body);
    assert forall|i: int| 0 <= i < filled.len() implies #[trigger] s[i] == filled[i] by {
        assert(p.subrange(0, filled.len() as int)[i] == p[i]);
    }
    assert(s[0] == h0[0]) by {
        assert(s[0] == filled[0]);
        assert(h.subrange(0, 16)[0] == h[0]);
    }
    assert(s.subrange(4, 8) =~= h0.subrange(4, 8)) by {
        assert forall|i: int| 0 <= i < 4 implies s.subrange(4, 8)[i] == h0.subrange(4, 8)[i] by {
            assert(s[4 + i] == filled[4 + i]);
            assert(h.subrange(0, 16)[4 + i] == h[4 + i]);
        }
    }
    assert(s.subrange(12, 16) =~= e.bytes_of(array_len as nat, 4)) by {
        assert forall|i: int| 0 <= i < 4 implies s.subrange(12, 16)[i] == e.bytes_of(array_len as nat, 4)[i] by {
            assert(s[12 + i] == filled[12 + i]);
        }
    }
}

/// Reading back through the codec: where the buffer holds the bytes written
/// for a message and then anything more, one decoding step gives back that
/// message, with the length of its body as the body length, and leaves exactly
/// what followed it.
pub proof fn lemma_codec_decode_encode(m: MessageV, rest: Seq<u8>)
    requires
        encodable(m),
    ensures
        crate::codec::spec_codec_decode(spec_encode(m) + rest) == (
            Ok::<Option<MessageV>, crate::wire::DecodeError>(Some(with_body_length(m))),
            rest,
        ),
{
    lemma_encode_ignores_body_length(m);
    lemma_codec_decode_encode_exact(with_body_length(m), rest);
}

#[verifier::spinoff_prover]
proof fn lemma_codec_decode_encode_exact(m: MessageV, rest: Seq<u8>)
    requires
        encodable(m),
        m.body_length == m.body.len(),
    ensures
        crate::codec::spec_codec_decode(spec_encode(m) + rest) == (
            Ok::<Option<MessageV>, crate::wire::DecodeError>(Some(m)),
            rest,
        ),
{
    let e = m.endianness;
    let s = spec_encode(m);
    let h = header_with_fields(m);
    lemma_encode_layout(m);
    e.lemma_u32_roundtrip(m.body.len() as u32);
    e.lemma_u32_roundtrip((h.len() - 16) as u32);
    crate::endianness::lemma_marker_roundtrip(e, 0);
    let full = s + rest;
    assert(full[0] == s[0]);
    assert(full.subrange(4, 8) =~= s.subrange(4, 8));
    assert(full.subrange(12, 16) =~= s.subrange(12, 16));
    assert(crate::codec::spec_frame_size(full) == Ok::<Option<int>, crate::wire::DecodeError>(Some(s.len() as int)));
    assert(full.take(s.len() as int) =~= s + Seq::<u8>::empty());
    assert(full.skip(s.len() as int) =~= rest);
    lemma_decode_encode_exact(m, Seq::<u8>::empty());
}

proof fn lemma_same_read_u8(s: Seq<u8>, s2: Seq<u8>, k: int, p: int)
    requires
        agree_on(s, s2, 0, k),
        read_u8(s, p) matches Ok((_, q)) && q <= k,
    ensures
        read_u8(s2, p) == read_u8(s, p),
{
    assert(s2[p] == s[p]);
}

proof fn lemma_same_read_u32(s: Seq<u8>, s2: Seq<u8>, k: int, p: int, e: Endianness)
    requires
        agree_on(s, s2, 0, k),
        read_u32(s, p, e) matches Ok((_, q)) && q <= k,
    ensures
        read_u32(s2, p, e) == read_u32(s, p, e),
{
    assert(s2.subrange(p, p + 4) =~= s.subrange(p, p + 4)) by {
        assert forall|i: int| 0 <= i < 4 implies #[trigger] s2.subrange(p, p + 4)[i] == s.subrange(p, p + 4)[i] by {
            assert(s2[p + i] == s[p + i]);
        }
    }
}

proof fn lemma_same_variant_sig(s: Seq<u8>, s2: Seq<u8>, k: int, p: int, sig: u8)
    requires
        agree_on(s, s2, 0, k),
        read_variant_sig(s, p, sig) matches Ok(q) && q <= k,
    ensures
        read_variant_sig(s2, p, sig) == read_variant_sig(s, p, sig),
{
    lemma_same_read_u8(s, s2, k, p);
    lemma_same_read_u8(s, s2, k, p + 1);
    lemma_same_read_u8(s, s2, k, p + 2);
}

proof fn lemma_same_text(s: Seq<u8>, s2: Seq<u8>, k: int, p: int, len: int)
    requires
        agree_on(s, s2, 0, k),
        len >= 0,
        crate::wire::read_text(s, p, len) matches Ok((_, q)) && q <= k,
    ensures
        crate::wire::read_text(s2, p, len) == crate::wire::read_text(s, p, len),
{
    assert(s2.subrange(p, p + len) =~= s.subrange(p, p + len)) by {
        assert forall|i: int| 0 <= i < len implies #[trigger] s2.subrange(p, p + len)[i] == s.subrange(p, p + len)[i] by {
            assert(s2[p + i] == s[p + i]);
        }
    }
    lemma_same_read_u8(s, s2, k, p + len);
}

proof fn lemma_same_field(s: Seq<u8>, s2: Seq<u8>, k: int, pos: int, e: Endianness, acc: FieldsV)
    requires
        agree_on(s, s2, 0, k),
        pos >= 0,
        decode_field(s, pos, e, acc) matches Ok((_, q)) && q <= k,
    ensures
        decode_field(s2, pos, e, acc) == decode_field(s, pos, e, acc),
{
    let p = pos + pad_len(pos);
    lemma_same_read_u8(s, s2, k, p);
    let code = s[p];
    let f = HeaderField::spec_from_code(code)->Ok_0;
    let vs = read_variant_sig(s, p + 1, f.spec_sig());
    lemma_same_variant_sig(s, s2, k, p + 1, f.spec_sig());
    let r = vs->Ok_0;
    match f {
        HeaderField::ReplySerial | HeaderField::UnixFds => {
            lemma_same_read_u32(s, s2, k, r, e);
        },
        HeaderField::Signature => {
            lemma_same_read_u8(s, s2, k, r);
            lemma_same_text(s, s2, k, r + 1, s[r] as int);
        },
        _ => {
            lemma_same_read_u32(s, s2, k, r, e);
            let len = read_u32(s, r, e)->Ok_0.0;
            lemma_same_text(s, s2, k, r + 4, len as int);
        },
    }
}

proof fn lemma_same_fields(s: Seq<u8>, s2: Seq<u8>, k: int, pos: int, end: int, e: Endianness, acc: FieldsV)
    requires
        agree_on(s, s2, 0, k),
        decode_fields(s, pos, end, e, acc) matches Ok((_, q)) && q <= k,
    ensures
        decode_fields(s2, pos, end, e, acc) == decode_fields(s, pos, end, e, acc),
    decreases s.len() - pos,
{
    if !(pos >= end || pos < 0) {
        crate::wire::lemma_decode_field_advances(s, pos, e, acc);
        let (acc2, p) = decode_field(s, pos, e, acc)->Ok_0;
        lemma_fields_end_after(s, p, end, e, acc2);
        lemma_same_field(s, s2, k, pos, e, acc);
        lemma_same_fields(s, s2, k, p, end, e, acc2);
    }
}

/// Decoding fields ends no earlier than it starts.
proof fn lemma_fields_end_after(s: Seq<u8>, pos: int, end: int, e: Endianness, acc: FieldsV)
    ensures
        decode_fields(s, pos, end, e, acc) matches Ok((_, q)) ==> pos <= q,
    decreases s.len() - pos,
{
    if !(pos >= end || pos < 0) {
        crate::wire::lemma_decode_field_advances(s, pos, e, acc);
        if let Ok((acc2, p)) = decode_field(s, pos, e, acc) {
            lemma_fields_end_after(s, p, end, e, acc2);
        }
    }
}

/// A message decodes from its own bytes alone: whatever follows the bytes
/// that a decoded message takes, decoding them gives the same message.
pub proof fn lemma_decode_depends_on_own_bytes(s: Seq<u8>, t: Seq<u8>)
    requires
        spec_decode(s) is Ok,
    ensures
        spec_decode(s.take(spec_decode(s)->Ok_0.1) + t) == spec_decode(s),
{
    let n = spec_decode(s)->Ok_0.1;
    let s2 = s.take(n) + t;
    let e = Endianness::spec_from_marker(s[0])->Ok_0;
    let array_len = read_u32(s, 12, e)->Ok_0.0;
    let end = 16 + array_len;
    lemma_fields_end_after(s, 16, end, e, no_fields());
    assert(16 <= n <= s.len());
    assert(agree_on(s, s2, 0, n)) by {
        assert forall|i: int| 0 <= i < n implies #[trigger] s[i] == s2[i] by {
            assert(s2[i] == s.take(n)[i]);
        }
    }
    lemma_same_read_u8(s, s2, n, 0);
    lemma_same_read_u8(s, s2, n, 1);
    lemma_same_read_u8(s, s2, n, 2);
    lemma_same_read_u8(s, s2, n, 3);
    lemma_same_read_u32(s, s2, n, 4, e);
    lemma_same_read_u32(s, s2, n, 8, e);
    lemma_same_read_u32(s, s2, n, 12, e);
    lemma_same_fields(s, s2, n, 16, end, e, no_fields());
    let pos = decode_fields(s, 16, end, e, no_fields())->Ok_0.1;
    let body_start = pos + (round8(end) - end);
    let body_length = read_u32(s, 4, e)->Ok_0.0;
    assert(s2.subrange(body_start, body_start + body_length) =~= s.subrange(body_start, body_start + body_length)) by {
        assert forall|i: int| 0 <= i < body_length implies #[trigger] s2.subrange(body_start, body_start + body_length)[i]
            == s.subrange(body_start, body_start + body_length)[i] by {
            assert(s2[body_start + i] == s[body_start + i]);
        }
    }
}

} // verus!
