//! The D-Bus message format, stated over byte sequences: what decoding a
//! message from bytes gives, and the bytes that encoding a message writes.
use vstd::prelude::*;
use vstd::utf8::{decode_utf8, encode_utf8, valid_utf8};

use crate::endianness::Endianness;
use crate::object_path::is_valid_path;

verus! {

/// Why bytes do not decode as a message.
#[derive(Debug, Clone, Copy, PartialEq, Eq, Structural)]
pub enum DecodeError {
    /// The bytes end before the message does.
    UnexpectedEof,
    /// The first byte is neither `b'l'` nor `b'B'`.
    InvalidEndianness,
    /// The message type byte is above 4: a type that receivers ignore.
    UnknownMessageType,
    /// The serial is zero.
    ZeroSerial,
    /// A header field has an unknown code.
    UnknownHeaderField(u8),
    /// A header field's variant signature is not one byte long.
    VariantSignatureLength,
    /// A header field's variant signature is not the type that its code requires.
    VariantSignature,
    /// A variant signature is not followed by a nul byte.
    SignatureNotTerminated,
    /// A string is not followed by a nul byte.
    StringNotTerminated,
    /// A string is not valid UTF-8.
    InvalidUtf8,
    /// The path header field is not a valid object path.
    InvalidObjectPath,
    /// The last header field runs past the length that the header declares
    /// for its field array.
    HeaderFieldsOverrun,
}

/// Kind of a D-Bus message.
#[derive(Debug, PartialEq, Eq, PartialOrd, Ord, Clone, Copy, Structural)]
pub enum MessageType {
    /// This is an invalid type.
    Invalid,
    /// Method call. This message type may prompt a reply.
    MethodCall,
    /// Method reply with returned data.
    MethodReturn,
    /// Error reply. If the first argument exists and is a string, it is an error message.
    Error,
    /// Signal emission.
    Signal,
}

impl MessageType {
    /// The byte that stands for this type on the wire.
    pub open spec fn spec_code(self) -> u8 {
        match self {
            MessageType::Invalid => 0,
            MessageType::MethodCall => 1,
            MessageType::MethodReturn => 2,
            MessageType::Error => 3,
            MessageType::Signal => 4,
        }
    }

    /// The type that a byte stands for; the byte itself where it stands for none.
    pub open spec fn spec_from_code(b: u8) -> Result<MessageType, u8> {
        if b == 0 {
            Ok(MessageType::Invalid)
        } else if b == 1 {
            Ok(MessageType::MethodCall)
        } else if b == 2 {
            Ok(MessageType::MethodReturn)
        } else if b == 3 {
            Ok(MessageType::Error)
        } else if b == 4 {
            Ok(MessageType::Signal)
        } else {
            Err(b)
        }
    }
}

/// The code of a message type reads back as that type, and a byte that
/// reads as a type is that type's code.
pub proof fn lemma_message_type_code_roundtrip(t: MessageType, b: u8)
    ensures
        MessageType::spec_from_code(t.spec_code()) == Ok::<MessageType, u8>(t),
        MessageType::spec_from_code(b) matches Ok(u) ==> u.spec_code() == b,
        MessageType::spec_from_code(b) is Ok <==> b <= 4,
{
}

/// The code of a header field reads back as that field, and a byte that reads
/// as a field is that field's code; the codes are 1 to 9.
pub proof fn lemma_header_field_code_roundtrip(f: HeaderField, b: u8)
    ensures
        HeaderField::spec_from_code(f.spec_code()) == Ok::<HeaderField, DecodeError>(f),
        HeaderField::spec_from_code(b) matches Ok(g) ==> g.spec_code() == b,
        HeaderField::spec_from_code(b) is Ok <==> 1 <= b <= 9,
{
}

/// The code of a header field.
#[derive(Debug, Clone, Copy, PartialEq, Eq, Structural)]
pub enum HeaderField {
    Path,
    Interface,
    Member,
    ErrorName,
    ReplySerial,
    Destination,
    Sender,
    Signature,
    UnixFds,
}

impl HeaderField {
    pub open spec fn spec_code(self) -> u8 {
        match self {
            HeaderField::Path => 1,
            HeaderField::Interface => 2,
            HeaderField::Member => 3,
            HeaderField::ErrorName => 4,
            HeaderField::ReplySerial => 5,
            HeaderField::Destination => 6,
            HeaderField::Sender => 7,
            HeaderField::Signature => 8,
            HeaderField::UnixFds => 9,
        }
    }

    pub open spec fn spec_from_code(b: u8) -> Result<HeaderField, DecodeError> {
        if b == 1 {
            Ok(HeaderField::Path)
        } else if b == 2 {
            Ok(HeaderField::Interface)
        } else if b == 3 {
            Ok(HeaderField::Member)
        } else if b == 4 {
            Ok(HeaderField::ErrorName)
        } else if b == 5 {
            Ok(HeaderField::ReplySerial)
        } else if b == 6 {
            Ok(HeaderField::Destination)
        } else if b == 7 {
            Ok(HeaderField::Sender)
        } else if b == 8 {
            Ok(HeaderField::Signature)
        } else if b == 9 {
            Ok(HeaderField::UnixFds)
        } else {
            Err(DecodeError::UnknownHeaderField(b))
        }
    }

    /// The signature byte of the value this field carries: `o` for the path,
    /// `g` for the signature, `u` for the two numbers and `s` for the rest.
    pub open spec fn spec_sig(self) -> u8 {
        match self {
            HeaderField::Path => SIG_OBJECT_PATH,
            HeaderField::Signature => SIG_SIGNATURE,
            HeaderField::ReplySerial | HeaderField::UnixFds => SIG_U32,
            _ => SIG_STRING,
        }
    }
}

pub const SIG_OBJECT_PATH: u8 = 0x6f;

pub const SIG_SIGNATURE: u8 = 0x67;

pub const SIG_U32: u8 = 0x75;

pub const SIG_STRING: u8 = 0x73;

/// The optional header fields of a message, as values.
pub struct FieldsV {
    pub path: Option<Seq<char>>,
    pub interface: Option<Seq<char>>,
    pub member: Option<Seq<char>>,
    pub error_name: Option<Seq<char>>,
    pub reply_serial: Option<u32>,
    pub destination: Option<Seq<char>>,
    pub sender: Option<Seq<char>>,
    pub signature: Option<Seq<char>>,
    pub unix_fds: Option<u32>,
}

/// No header field set.
pub open spec fn no_fields() -> FieldsV {
    FieldsV {
        path: None,
        interface: None,
        member: None,
        error_name: None,
        reply_serial: None,
        destination: None,
        sender: None,
        signature: None,
        unix_fds: None,
    }
}

/// A message, as values.
pub struct MessageV {
    pub endianness: Endianness,
    pub message_type: MessageType,
    pub flags: u8,
    pub version: u8,
    pub body_length: u32,
    pub serial: u32,
    pub fields: FieldsV,
    pub body: Seq<u8>,
}

/// `n` rounded up to a multiple of 8.
pub open spec fn round8(n: int) -> int {
    (n + 7) / 8 * 8
}

/// Bytes needed after position `pos` to reach a multiple of 8.
pub open spec fn pad_len(pos: int) -> int {
    (8 - pos % 8) % 8
}

/* Decoding */

/// The byte at `pos`, and the position after it.
pub open spec fn read_u8(s: Seq<u8>, pos: int) -> Result<(u8, int), DecodeError> {
    if 0 <= pos < s.len() {
        Ok((s[pos], pos + 1))
    } else {
        Err(DecodeError::UnexpectedEof)
    }
}

/// The `u32` at `pos` in byte order `e`, and the position after it.
pub open spec fn read_u32(s: Seq<u8>, pos: int, e: Endianness) -> Result<(u32, int), DecodeError> {
    if 0 <= pos && pos + 4 <= s.len() {
        Ok((e.value_of(s.subrange(pos, pos + 4)) as u32, pos + 4))
    } else {
        Err(DecodeError::UnexpectedEof)
    }
}

/// Checks the variant signature at `pos`: length 1, the byte `sig`, a nul.
pub open spec fn read_variant_sig(s: Seq<u8>, pos: int, sig: u8) -> Result<int, DecodeError> {
    match read_u8(s, pos) {
        Err(x) => Err(x),
        Ok((len, p1)) => if len != 1 {
            Err(DecodeError::VariantSignatureLength)
        } else {
            match read_u8(s, p1) {
                Err(x) => Err(x),
                Ok((b, p2)) => if b != sig {
                    Err(DecodeError::VariantSignature)
                } else {
                    match read_u8(s, p2) {
                        Err(x) => Err(x),
                        Ok((z, p3)) => if z != 0 {
                            Err(DecodeError::SignatureNotTerminated)
                        } else {
                            Ok(p3)
                        },
                    }
                },
            }
        },
    }
}

/// Where reading a variant signature at `pos` stops: after the first byte
/// that does not match, after all three where they match, or at the end of
/// `s` where it runs out.
pub open spec fn variant_sig_end(s: Seq<u8>, pos: int, sig: u8) -> int {
    if !(0 <= pos < s.len()) {
        s.len() as int
    } else if s[pos] != 1 {
        pos + 1
    } else if pos + 1 >= s.len() {
        s.len() as int
    } else if s[pos + 1] != sig {
        pos + 2
    } else if pos + 2 >= s.len() {
        s.len() as int
    } else {
        pos + 3
    }
}

/// Where reading `len` bytes of text and their nul at `pos` stops: after the
/// nul whether or not the text is accepted, or at the end of `s` where it runs out.
pub open spec fn text_end(s: Seq<u8>, pos: int, len: int) -> int {
    if 0 <= pos && 0 <= len && pos + len + 1 <= s.len() {
        pos + len + 1
    } else {
        s.len() as int
    }
}

/// Where reading a string with a `u32` length at `pos` stops.
pub open spec fn string_end(s: Seq<u8>, pos: int, e: Endianness) -> int {
    match read_u32(s, pos, e) {
        Ok((len, p)) => text_end(s, p, len as int),
        Err(_) => s.len() as int,
    }
}

/// Where reading a string with a one-byte length at `pos` stops.
pub open spec fn sig_string_end(s: Seq<u8>, pos: int) -> int {
    match read_u8(s, pos) {
        Ok((len, p)) => text_end(s, p, len as int),
        Err(_) => s.len() as int,
    }
}

/// The `len` bytes at `pos` followed by a nul, as UTF-8 text.
pub open spec fn read_text(s: Seq<u8>, pos: int, len: int) -> Result<(Seq<char>, int), DecodeError> {
    if !(0 <= pos && pos + len <= s.len()) {
        Err(DecodeError::UnexpectedEof)
    } else {
        let bytes = s.subrange(pos, pos + len);
        match read_u8(s, pos + len) {
            Err(x) => Err(x),
            Ok((z, p)) => if z != 0 {
                Err(DecodeError::StringNotTerminated)
            } else if !valid_utf8(bytes) {
                Err(DecodeError::InvalidUtf8)
            } else {
                Ok((decode_utf8(bytes), p))
            },
        }
    }
}

/// A string with a `u32` length (`s` and `o`).
pub open spec fn read_string(s: Seq<u8>, pos: int, e: Endianness) -> Result<(Seq<char>, int), DecodeError> {
    match read_u32(s, pos, e) {
        Err(x) => Err(x),
        Ok((len, p)) => read_text(s, p, len as int),
    }
}

/// A string with a one-byte length (`g`).
pub open spec fn read_sig_string(s: Seq<u8>, pos: int) -> Result<(Seq<char>, int), DecodeError> {
    match read_u8(s, pos) {
        Err(x) => Err(x),
        Ok((len, p)) => read_text(s, p, len as int),
    }
}

/// `acc` with a text field set.
pub open spec fn set_text(acc: FieldsV, f: HeaderField, t: Seq<char>) -> FieldsV {
    match f {
        HeaderField::Path => FieldsV { path: Some(t), ..acc },
        HeaderField::Interface => FieldsV { interface: Some(t), ..acc },
        HeaderField::Member => FieldsV { member: Some(t), ..acc },
        HeaderField::ErrorName => FieldsV { error_name: Some(t), ..acc },
        HeaderField::Destination => FieldsV { destination: Some(t), ..acc },
        HeaderField::Sender => FieldsV { sender: Some(t), ..acc },
        HeaderField::Signature => FieldsV { signature: Some(t), ..acc },
        _ => acc,
    }
}

/// `acc` with a number field set; a zero count of file descriptors is no count.
pub open spec fn set_number(acc: FieldsV, f: HeaderField, v: u32) -> FieldsV {
    match f {
        HeaderField::ReplySerial => FieldsV { reply_serial: Some(v), ..acc },
        HeaderField::UnixFds => FieldsV { unix_fds: if v == 0 { None } else { Some(v) }, ..acc },
        _ => acc,
    }
}

/// The value of field `f`, whose code ends just before `pos`.
pub open spec fn decode_field_value(s: Seq<u8>, pos: int, e: Endianness, f: HeaderField, acc: FieldsV)
    -> Result<(FieldsV, int), DecodeError> {
    match read_variant_sig(s, pos, f.spec_sig()) {
        Err(x) => Err(x),
        Ok(p) => match f {
            HeaderField::ReplySerial | HeaderField::UnixFds => match read_u32(s, p, e) {
                Err(x) => Err(x),
                Ok((v, q)) => Ok((set_number(acc, f, v), q)),
            },
            HeaderField::Signature => match read_sig_string(s, p) {
                Err(x) => Err(x),
                Ok((t, q)) => Ok((set_text(acc, f, t), q)),
            },
            _ => match read_string(s, p, e) {
                Err(x) => Err(x),
                Ok((t, q)) => if f == HeaderField::Path && !is_valid_path(encode_utf8(t)) {
                    Err(DecodeError::InvalidObjectPath)
                } else {
                    Ok((set_text(acc, f, t), q))
                },
            },
        },
    }
}

/// One header field starting at `pos`: alignment padding to 8, the code,
/// the variant signature and the value.
pub open spec fn decode_field(s: Seq<u8>, pos: int, e: Endianness, acc: FieldsV) -> Result<(FieldsV, int), DecodeError> {
    let p = pos + pad_len(pos);
    if p > s.len() {
        Err(DecodeError::UnexpectedEof)
    } else {
        match read_u8(s, p) {
            Err(x) => Err(x),
            Ok((code, q)) => match HeaderField::spec_from_code(code) {
                Err(x) => Err(x),
                Ok(f) => decode_field_value(s, q, e, f, acc),
            },
        }
    }
}

/// Header fields from `pos` on, while `pos` is before `end`.
pub open spec fn decode_fields(s: Seq<u8>, pos: int, end: int, e: Endianness, acc: FieldsV) -> Result<(FieldsV, int), DecodeError>
    decreases s.len() - pos,
{
    if pos >= end || pos < 0 {
        Ok((acc, pos))
    } else {
        match decode_field(s, pos, e, acc) {
            Err(x) => Err(x),
            Ok((acc2, p)) => {
                proof {
                    lemma_decode_field_advances(s, pos, e, acc);
                }
                decode_fields(s, p, end, e, acc2)
            },
        }
    }
}

/// Decoding a field moves forward and stays within the bytes.
pub proof fn lemma_decode_field_advances(s: Seq<u8>, pos: int, e: Endianness, acc: FieldsV)
    requires
        pos >= 0,
    ensures
        decode_field(s, pos, e, acc) matches Ok((_, p)) ==> pos < p <= s.len(),
{
}

/// The message at the start of `s`, and how many bytes it takes. The header
/// fields fill the field array exactly as long as the header declares it, and
/// the body starts where that array ends, padded to a multiple of 8.
pub open spec fn spec_decode(s: Seq<u8>) -> Result<(MessageV, int), DecodeError> {
    match read_u8(s, 0) {
        Err(x) => Err(x),
        Ok((eb, _)) => match Endianness::spec_from_marker(eb) {
            Err(_) => Err(DecodeError::InvalidEndianness),
            Ok(e) => match read_u8(s, 1) {
                Err(x) => Err(x),
                Ok((tb, _)) => match MessageType::spec_from_code(tb) {
                    Err(_) => Err(DecodeError::UnknownMessageType),
                    Ok(t) => match read_u8(s, 2) {
                        Err(x) => Err(x),
                        Ok((flags, _)) => match read_u8(s, 3) {
                            Err(x) => Err(x),
                            Ok((version, _)) => match read_u32(s, 4, e) {
                                Err(x) => Err(x),
                                Ok((body_length, _)) => match read_u32(s, 8, e) {
                                    Err(x) => Err(x),
                                    Ok((serial, _)) => if serial == 0 {
                                        Err(DecodeError::ZeroSerial)
                                    } else {
                                        match read_u32(s, 12, e) {
                                            Err(x) => Err(x),
                                            Ok((array_len, _)) => {
                                                let array_end = 16 + array_len;
                                                match decode_fields(s, 16, array_end, e, no_fields()) {
                                                    Err(x) => Err(x),
                                                    Ok((fields, pos)) => {
                                                        let body_start = round8(array_end);
                                                        if pos != array_end {
                                                            Err(DecodeError::HeaderFieldsOverrun)
                                                        } else if body_start + body_length > s.len() {
                                                            Err(DecodeError::UnexpectedEof)
                                                        } else {
                                                            Ok((
                                                                MessageV {
                                                                    endianness: e,
                                                                    message_type: t,
                                                                    flags,
                                                                    version,
                                                                    body_length,
                                                                    serial,
                                                                    fields,
                                                                    body: s.subrange(body_start, body_start + body_length),
                                                                },
                                                                body_start + body_length,
                                                            ))
                                                        }
                                                    },
                                                }
                                            },
                                        }
                                    },
                                },
                            },
                        },
                    },
                },
            },
        },
    }
}

/* Encoding */

/// `b` followed by nul bytes up to a multiple of 8.
pub open spec fn pad8(b: Seq<u8>) -> Seq<u8> {
    b + Seq::new((round8(b.len() as int) - b.len()) as nat, |i: int| 0u8)
}

/// A text header field appended to `b`: padding to 8, the field code, the
/// variant signature `sig`, the length (one byte for `g`, a `u32` for any
/// other signature), the bytes of `t` and a nul.
pub open spec fn put_text(b: Seq<u8>, code: u8, sig: u8, t: Seq<char>, e: Endianness) -> Seq<u8> {
    let bytes = encode_utf8(t);
    let head = pad8(b) + seq![code, 1u8, sig, 0u8];
    let len = if sig == SIG_SIGNATURE {
        seq![bytes.len() as u8]
    } else {
        e.bytes_of((bytes.len() as u32) as nat, 4)
    };
    head + len + bytes + seq![0u8]
}

/// A header field with text value `t` appended to `b`, with the field's own signature.
pub open spec fn put_text_field(b: Seq<u8>, f: HeaderField, t: Seq<char>, e: Endianness) -> Seq<u8> {
    put_text(b, f.spec_code(), f.spec_sig(), t, e)
}

/// A header field with number value `v` appended to `b`.
pub open spec fn put_number_field(b: Seq<u8>, f: HeaderField, v: u32, e: Endianness) -> Seq<u8> {
    pad8(b) + seq![f.spec_code(), 1u8, SIG_U32, 0u8] + e.bytes_of(v as nat, 4)
}

pub open spec fn put_opt_text(b: Seq<u8>, f: HeaderField, o: Option<Seq<char>>, e: Endianness) -> Seq<u8> {
    match o {
        Some(t) => put_text_field(b, f, t, e),
        None => b,
    }
}

pub open spec fn put_opt_number(b: Seq<u8>, f: HeaderField, o: Option<u32>, e: Endianness) -> Seq<u8> {
    match o {
        Some(v) => put_number_field(b, f, v, e),
        None => b,
    }
}

/// The present header fields appended to `b`, in code order but with the
/// reply serial after the error name.
pub open spec fn put_fields(b: Seq<u8>, f: FieldsV, e: Endianness) -> Seq<u8> {
    let b1 = put_opt_text(b, HeaderField::Path, f.path, e);
    let b2 = put_opt_text(b1, HeaderField::Interface, f.interface, e);
    let b3 = put_opt_text(b2, HeaderField::Member, f.member, e);
    let b4 = put_opt_text(b3, HeaderField::ErrorName, f.error_name, e);
    let b5 = put_opt_number(b4, HeaderField::ReplySerial, f.reply_serial, e);
    let b6 = put_opt_text(b5, HeaderField::Destination, f.destination, e);
    let b7 = put_opt_text(b6, HeaderField::Sender, f.sender, e);
    let b8 = put_opt_text(b7, HeaderField::Signature, f.signature, e);
    put_opt_number(b8, HeaderField::UnixFds, f.unix_fds, e)
}

/// Appending fields keeps what was there.
pub proof fn lemma_put_fields_extends(b: Seq<u8>, f: FieldsV, e: Endianness)
    ensures
        put_fields(b, f, e).len() >= b.len(),
        put_fields(b, f, e).subrange(0, b.len() as int) =~= b,
{
    let b1 = put_opt_text(b, HeaderField::Path, f.path, e);
    let b2 = put_opt_text(b1, HeaderField::Interface, f.interface, e);
    let b3 = put_opt_text(b2, HeaderField::Member, f.member, e);
    let b4 = put_opt_text(b3, HeaderField::ErrorName, f.error_name, e);
    let b5 = put_opt_number(b4, HeaderField::ReplySerial, f.reply_serial, e);
    let b6 = put_opt_text(b5, HeaderField::Destination, f.destination, e);
    let b7 = put_opt_text(b6, HeaderField::Sender, f.sender, e);
    let b8 = put_opt_text(b7, HeaderField::Signature, f.signature, e);
    let b9 = put_opt_number(b8, HeaderField::UnixFds, f.unix_fds, e);
    lemma_put_opt_text_extends(b, HeaderField::Path, f.path, e);
    lemma_put_opt_text_extends(b1, HeaderField::Interface, f.interface, e);
    lemma_put_opt_text_extends(b2, HeaderField::Member, f.member, e);
    lemma_put_opt_text_extends(b3, HeaderField::ErrorName, f.error_name, e);
    lemma_put_opt_number_extends(b4, HeaderField::ReplySerial, f.reply_serial, e);
    lemma_put_opt_text_extends(b5, HeaderField::Destination, f.destination, e);
    lemma_put_opt_text_extends(b6, HeaderField::Sender, f.sender, e);
    lemma_put_opt_text_extends(b7, HeaderField::Signature, f.signature, e);
    lemma_put_opt_number_extends(b8, HeaderField::UnixFds, f.unix_fds, e);
    assert(b9.subrange(0, b.len() as int) =~= b) by {
        assert forall|i: int| 0 <= i < b.len() implies b9[i] == b[i] by {
            assert(b9[i] == b8[i] && b8[i] == b7[i] && b7[i] == b6[i] && b6[i] == b5[i]) by {
                assert(b9.subrange(0, b8.len() as int)[i] == b9[i]);
                assert(b8.subrange(0, b7.len() as int)[i] == b8[i]);
                assert(b7.subrange(0, b6.len() as int)[i] == b7[i]);
                assert(b6.subrange(0, b5.len() as int)[i] == b6[i]);
            }
            assert(b5[i] == b4[i] && b4[i] == b3[i] && b3[i] == b2[i] && b2[i] == b1[i] && b1[i] == b[i]) by {
                assert(b5.subrange(0, b4.len() as int)[i] == b5[i]);
                assert(b4.subrange(0, b3.len() as int)[i] == b4[i]);
                assert(b3.subrange(0, b2.len() as int)[i] == b3[i]);
                assert(b2.subrange(0, b1.len() as int)[i] == b2[i]);
                assert(b1.subrange(0, b.len() as int)[i] == b1[i]);
            }
        }
    }
}

pub proof fn lemma_pad8_extends(b: Seq<u8>)
    ensures
        pad8(b).len() == round8(b.len() as int),
        pad8(b).len() >= b.len(),
        pad8(b).subrange(0, b.len() as int) =~= b,
{
}

pub proof fn lemma_put_opt_text_extends(b: Seq<u8>, f: HeaderField, o: Option<Seq<char>>, e: Endianness)
    ensures
        put_opt_text(b, f, o, e).len() >= b.len(),
        put_opt_text(b, f, o, e).subrange(0, b.len() as int) =~= b,
{
    lemma_pad8_extends(b);
    if let Some(t) = o {
        let r = put_text_field(b, f, t, e);
        assert forall|i: int| 0 <= i < b.len() implies r[i] == b[i] by {
            assert(r[i] == pad8(b)[i]);
            assert(pad8(b).subrange(0, b.len() as int)[i] == pad8(b)[i]);
        }
    }
}

pub proof fn lemma_put_opt_number_extends(b: Seq<u8>, f: HeaderField, o: Option<u32>, e: Endianness)
    ensures
        put_opt_number(b, f, o, e).len() >= b.len(),
        put_opt_number(b, f, o, e).subrange(0, b.len() as int) =~= b,
{
    lemma_pad8_extends(b);
    if let Some(v) = o {
        let r = put_number_field(b, f, v, e);
        assert forall|i: int| 0 <= i < b.len() implies r[i] == b[i] by {
            assert(r[i] == pad8(b)[i]);
            assert(pad8(b).subrange(0, b.len() as int)[i] == pad8(b)[i]);
        }
    }
}

/// The fixed 16-byte start of a header, with a zero array length.
pub open spec fn header_start(m: MessageV) -> Seq<u8> {
    let e = m.endianness;
    seq![e.spec_marker(), m.message_type.spec_code(), m.flags, m.version]
        + e.bytes_of((m.body.len() as u32) as nat, 4)
        + e.bytes_of(m.serial as nat, 4)
        + e.bytes_of(0, 4)
}

/// The header up to the end of its fields.
#[verifier::opaque]
pub open spec fn header_with_fields(m: MessageV) -> Seq<u8> {
    put_fields(header_start(m), m.fields, m.endianness)
}

/// The bytes of a message: the header with its array length filled in,
/// padding to a multiple of 8, then the body. The body length written is the
/// length of the body, whatever the `body_length` value holds.
pub open spec fn spec_encode(m: MessageV) -> Seq<u8> {
    let h = header_with_fields(m);
    let array_len = ((h.len() - 16) as u32) as nat;
    let filled = h.subrange(0, 12) + m.endianness.bytes_of(array_len, 4) + h.subrange(16, h.len() as int);
    pad8(filled) + m.body
}

/// The header that encoding writes ends on a multiple of 8, where the body
/// starts; the body follows unchanged and ends the encoding.
pub proof fn lemma_encode_header_aligned(m: MessageV)
    ensures
        spec_encode(m).len() >= m.body.len(),
        (spec_encode(m).len() - m.body.len()) % 8 == 0,
        spec_encode(m).skip(spec_encode(m).len() - m.body.len()) =~= m.body,
{
    let h = header_with_fields(m);
    let array_len = ((h.len() - 16) as u32) as nat;
    let filled = h.subrange(0, 12) + m.endianness.bytes_of(array_len, 4) + h.subrange(16, h.len() as int);
    let p = pad8(filled);
    assert(spec_encode(m) == p + m.body);
    lemma_pad8_extends(filled);
}

} // verus!
