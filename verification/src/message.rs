//! D-Bus messages: their header, and their decoding from and encoding to bytes.
use vstd::prelude::*;

use crate::endianness::Endianness;
use crate::object_path::ObjectPath;
use crate::wire::{
    put_text, sig_string_end, string_end, text_end, variant_sig_end,
    lemma_put_fields_extends,
    pad8, put_number_field, put_opt_number, put_opt_text, put_text_field, put_fields, header_start,
    header_with_fields, spec_encode, round8,
    decode_field, lemma_decode_field_advances, no_fields, read_u32, read_u8, set_text, spec_decode,
    DecodeError, FieldsV, HeaderField, MessageType, MessageV, SIG_OBJECT_PATH, SIG_SIGNATURE,
    SIG_STRING, SIG_U32, decode_fields,
};

verus! {

/// Bitwise OR of message flags. Unknown flags are kept as they are.
#[derive(Debug, Clone, Copy, PartialEq, Eq, Structural)]
pub struct Flags {
    bits: u8,
}

impl Flags {
    /// This message does not expect method return replies or error replies,
    /// even if it is of a type that can have a reply; the reply should be omitted.
    pub fn no_reply_expected() -> (r: Flags)
        ensures
            r.spec_bits() == 0x1,
    {
        Flags { bits: 0x1 }
    }

    /// The bus must not launch an owner for the destination name in response to this message.
    pub fn no_auto_start() -> (r: Flags)
        ensures
            r.spec_bits() == 0x2,
    {
        Flags { bits: 0x2 }
    }

    /// The caller is prepared to wait for interactive authorization.
    pub fn allow_interactive_authorization() -> (r: Flags)
        ensures
            r.spec_bits() == 0x4,
    {
        Flags { bits: 0x4 }
    }

    pub closed spec fn spec_bits(self) -> u8 {
        self.bits
    }

    /// No flag set.
    pub fn empty() -> (r: Flags)
        ensures
            r.spec_bits() == 0,
    {
        Flags { bits: 0 }
    }

    /// Every bit set, known or not.
    pub fn all() -> (r: Flags)
        ensures
            r.spec_bits() == 0xff,
    {
        Flags { bits: 0xff }
    }

    /// The flags with exactly the bits of `bits`, unknown ones included.
    pub fn from_bits_retain(bits: u8) -> (r: Flags)
        ensures
            r.spec_bits() == bits,
    {
        Flags { bits }
    }

    pub fn bits(&self) -> (r: u8)
        ensures
            r == self.spec_bits(),
    {
        self.bits
    }

    pub fn is_empty(&self) -> (r: bool)
        ensures
            r == (self.spec_bits() == 0),
    {
        self.bits == 0
    }

    /// Every bit of `other` is set in `self`.
    pub fn contains(&self, other: Flags) -> (r: bool)
        ensures
            r == (self.spec_bits() & other.spec_bits() == other.spec_bits()),
    {
        self.bits & other.bits == other.bits
    }

    /// The bits set in either.
    pub fn union(self, other: Flags) -> (r: Flags)
        ensures
            r.spec_bits() == self.spec_bits() | other.spec_bits(),
    {
        Flags { bits: self.bits | other.bits }
    }

    /// Sets the bits of `other`.
    pub fn insert(&mut self, other: Flags)
        ensures
            final(self).spec_bits() == old(self).spec_bits() | other.spec_bits(),
    {
        self.bits = self.bits | other.bits;
    }

    /// Clears the bits of `other`.
    pub fn remove(&mut self, other: Flags)
        ensures
            final(self).spec_bits() == old(self).spec_bits() & !other.spec_bits(),
    {
        self.bits = self.bits & !other.bits;
    }

    /// The flags with the bits of `bits`. Every bit is a known one, since
    /// the flags keep unknown bits, so this always succeeds.
    pub fn from_bits(bits: u8) -> (r: Option<Flags>)
        ensures
            r is Some,
            r->Some_0.spec_bits() == bits,
    {
        Some(Flags { bits })
    }

    /// The flags with the bits of `bits` that are known: all of them.
    pub fn from_bits_truncate(bits: u8) -> (r: Flags)
        ensures
            r.spec_bits() == bits,
    {
        Flags { bits }
    }

    /// Every bit is set.
    pub fn is_all(&self) -> (r: bool)
        ensures
            r == (self.spec_bits() == 0xff),
    {
        self.bits == 0xff
    }

    /// Some bit of `other` is set in `self`.
    pub fn intersects(&self, other: Flags) -> (r: bool)
        ensures
            r == (self.spec_bits() & other.spec_bits() != 0),
    {
        self.bits & other.bits != 0
    }

    /// The bits set in both.
    pub fn intersection(self, other: Flags) -> (r: Flags)
        ensures
            r.spec_bits() == self.spec_bits() & other.spec_bits(),
    {
        Flags { bits: self.bits & other.bits }
    }

    /// The bits of `self` that are not in `other`.
    pub fn difference(self, other: Flags) -> (r: Flags)
        ensures
            r.spec_bits() == self.spec_bits() & !other.spec_bits(),
    {
        Flags { bits: self.bits & !other.bits }
    }

    /// The bits set in exactly one of the two.
    pub fn symmetric_difference(self, other: Flags) -> (r: Flags)
        ensures
            r.spec_bits() == self.spec_bits() ^ other.spec_bits(),
    {
        Flags { bits: self.bits ^ other.bits }
    }

    /// The bits not set.
    pub fn complement(self) -> (r: Flags)
        ensures
            r.spec_bits() == !self.spec_bits(),
    {
        Flags { bits: !self.bits }
    }

    /// Flips the bits of `other`.
    pub fn toggle(&mut self, other: Flags)
        ensures
            final(self).spec_bits() == old(self).spec_bits() ^ other.spec_bits(),
    {
        self.bits = self.bits ^ other.bits;
    }

    /// Sets the bits of `other` where `value` holds, and clears them where not.
    pub fn set(&mut self, other: Flags, value: bool)
        ensures
            final(self).spec_bits() == if value {
                old(self).spec_bits() | other.spec_bits()
            } else {
                old(self).spec_bits() & !other.spec_bits()
            },
    {
        if value {
            self.insert(other);
        } else {
            self.remove(other);
        }
    }
}

impl MessageType {
    /// The byte that stands for this type on the wire.
    pub fn code(self) -> (r: u8)
        ensures
            r == self.spec_code(),
    {
        match self {
            MessageType::Invalid => 0,
            MessageType::MethodCall => 1,
            MessageType::MethodReturn => 2,
            MessageType::Error => 3,
            MessageType::Signal => 4,
        }
    }

    /// The type that a byte stands for; the byte itself where it stands for none.
    pub fn from_code(b: u8) -> (r: Result<MessageType, u8>)
        ensures
            r == MessageType::spec_from_code(b),
    {
        if b == 0 {
            Ok(MessageType::Invalid)
        } else if b == 1 {
            Ok(MessageType::MethodCall)
        } else if b == 2 {
            Ok(MessageType::MethodReturn)
        } else if b == 3 {
            Ok(MessageType::Error)
        } else if b == 4 {
            Ok(MessageType::Signal)
        } else {
            Err(b)
        }
    }
}

impl From<MessageType> for u8 {
    fn from(value: MessageType) -> (r: u8) {
        value.code()
    }
}

impl vstd::std_specs::convert::FromSpecImpl<MessageType> for u8 {
    open spec fn obeys_from_spec() -> bool {
        true
    }

    open spec fn from_spec(v: MessageType) -> u8 {
        v.spec_code()
    }
}

impl TryFrom<u8> for MessageType {
    type Error = u8;

    fn try_from(value: u8) -> (r: Result<Self, u8>) {
        MessageType::from_code(value)
    }
}

impl vstd::std_specs::convert::TryFromSpecImpl<u8> for MessageType {
    open spec fn obeys_try_from_spec() -> bool {
        true
    }

    open spec fn try_from_spec(v: u8) -> Result<Self, u8> {
        MessageType::spec_from_code(v)
    }
}

impl HeaderField {
    pub fn code(self) -> (r: u8)
        ensures
            r == self.spec_code(),
    {
        match self {
            HeaderField::Path => 1,
            HeaderField::Interface => 2,
            HeaderField::Member => 3,
            HeaderField::ErrorName => 4,
            HeaderField::ReplySerial => 5,
            HeaderField::Destination => 6,
            HeaderField::Sender => 7,
            HeaderField::Signature => 8,
            HeaderField::UnixFds => 9,
        }
    }

    pub fn from_code(b: u8) -> (r: Result<HeaderField, DecodeError>)
        ensures
            r == HeaderField::spec_from_code(b),
    {
        if b == 1 {
            Ok(HeaderField::Path)
        } else if b == 2 {
            Ok(HeaderField::Interface)
        } else if b == 3 {
            Ok(HeaderField::Member)
        } else if b == 4 {
            Ok(HeaderField::ErrorName)
        } else if b == 5 {
            Ok(HeaderField::ReplySerial)
        } else if b == 6 {
            Ok(HeaderField::Destination)
        } else if b == 7 {
            Ok(HeaderField::Sender)
        } else if b == 8 {
            Ok(HeaderField::Signature)
        } else if b == 9 {
            Ok(HeaderField::UnixFds)
        } else {
            Err(DecodeError::UnknownHeaderField(b))
        }
    }
}

impl TryFrom<u8> for HeaderField {
    type Error = DecodeError;

    fn try_from(value: u8) -> (r: Result<Self, DecodeError>) {
        HeaderField::from_code(value)
    }
}

impl vstd::std_specs::convert::TryFromSpecImpl<u8> for HeaderField {
    open spec fn obeys_try_from_spec() -> bool {
        true
    }

    open spec fn try_from_spec(v: u8) -> Result<Self, Self::Error> {
        HeaderField::spec_from_code(v)
    }
}

/// The header of a D-Bus message.
#[derive(Debug)]
pub struct Header {
    /// Endianness flag. Both header and body are in this endianness.
    pub endianness: Endianness,
    /// Message type. Unknown types must be ignored.
    pub message_type: MessageType,
    /// Bitwise OR of flags. Unknown flags must be ignored.
    pub flags: Flags,
    /// Major protocol version of the sending application; currently 1.
    pub version: u8,
    /// Length in bytes of the message body, starting from the end of the header.
    /// Encoding writes the length of the body instead.
    pub body_length: u32,
    /// The serial of this message, used by the sender to match the reply.
    /// It is never zero.
    pub serial: u32,
    /// The object to send a call to, or the object a signal is emitted from.
    pub path: Option<ObjectPath>,
    /// The interface to invoke a method call on, or that a signal is emitted from.
    pub interface: Option<String>,
    /// The member, either the method name or signal name.
    pub member: Option<String>,
    /// The name of the error that occurred, for errors.
    pub error_name: Option<String>,
    /// The serial number of the message this message is a reply to.
    pub reply_serial: Option<u32>,
    /// The name of the connection this message is intended for.
    pub destination: Option<String>,
    /// Unique name of the sending connection.
    pub sender: Option<String>,
    /// The signature of the message body; absent means the empty signature.
    pub signature: Option<String>,
    /// The number of Unix file descriptors that accompany the message; never `Some(0)`.
    pub unix_fds: Option<u32>,
}

/// A D-Bus message: header and body bytes.
#[derive(Debug)]
pub struct Message {
    pub header: Header,
    pub body: Vec<u8>,
}

pub open spec fn text_view(o: Option<String>) -> Option<Seq<char>> {
    match o {
        Some(s) => Some(s@),
        None => None,
    }
}

pub open spec fn path_view(o: Option<ObjectPath>) -> Option<Seq<char>> {
    match o {
        Some(p) => Some(p@),
        None => None,
    }
}

impl Header {
    /// The optional fields, as values.
    pub open spec fn fields_view(&self) -> FieldsV {
        FieldsV {
            path: path_view(self.path),
            interface: text_view(self.interface),
            member: text_view(self.member),
            error_name: text_view(self.error_name),
            reply_serial: self.reply_serial,
            destination: text_view(self.destination),
            sender: text_view(self.sender),
            signature: text_view(self.signature),
            unix_fds: self.unix_fds,
        }
    }
}

impl View for Message {
    type V = MessageV;

    open spec fn view(&self) -> MessageV {
        MessageV {
            endianness: self.header.endianness,
            message_type: self.header.message_type,
            flags: self.header.flags.spec_bits(),
            version: self.header.version,
            body_length: self.header.body_length,
            serial: self.header.serial,
            fields: self.header.fields_view(),
            body: self.body@,
        }
    }
}

/// The optional header fields while they are decoded.
struct Fields {
    path: Option<ObjectPath>,
    interface: Option<String>,
    member: Option<String>,
    error_name: Option<String>,
    reply_serial: Option<u32>,
    destination: Option<String>,
    sender: Option<String>,
    signature: Option<String>,
    unix_fds: Option<u32>,
}

impl View for Fields {
    type V = FieldsV;

    closed spec fn view(&self) -> FieldsV {
        FieldsV {
            path: path_view(self.path),
            interface: text_view(self.interface),
            member: text_view(self.member),
            error_name: text_view(self.error_name),
            reply_serial: self.reply_serial,
            destination: text_view(self.destination),
            sender: text_view(self.sender),
            signature: text_view(self.signature),
            unix_fds: self.unix_fds,
        }
    }
}

/// An executable read result agrees with a spec one.
pub open spec fn agrees<T>(r: Result<(T, usize), DecodeError>, s: Result<(T, int), DecodeError>) -> bool {
    match r {
        Ok((v, p)) => s == Ok::<(T, int), DecodeError>((v, p as int)),
        Err(x) => s == Err::<(T, int), DecodeError>(x),
    }
}

/// `String::from_utf8`: the text of `v` where `v` is valid UTF-8. The claim,
/// as the documentation says, is that it succeeds exactly on valid UTF-8 and
/// then holds the characters that the bytes encode.
#[verifier::external_body]
fn string_from_utf8(v: Vec<u8>) -> (r: Option<String>)
    ensures
        r is Some <==> vstd::utf8::valid_utf8(v@),
        r matches Some(s) ==> s@ == vstd::utf8::decode_utf8(v@),
{
    String::from_utf8(v).ok()
}

fn read_u8_at(src: &[u8], pos: usize) -> (r: Result<(u8, usize), DecodeError>)
    ensures
        agrees(r, read_u8(src@, pos as int)),
{
    if pos < src.len() {
        Ok((src[pos], pos + 1))
    } else {
        Err(DecodeError::UnexpectedEof)
    }
}

fn read_u32_at(src: &[u8], pos: usize, e: Endianness) -> (r: Result<(u32, usize), DecodeError>)
    ensures
        agrees(r, read_u32(src@, pos as int, e)),
{
    if pos <= src.len() && src.len() - pos >= 4 {
        let b = [src[pos], src[pos + 1], src[pos + 2], src[pos + 3]];
        assert(b@ =~= src@.subrange(pos as int, pos + 4));
        let v = e.u32_from_bytes(b);
        Ok((v, pos + 4))
    } else {
        Err(DecodeError::UnexpectedEof)
    }
}

/// A text read result together with where reading stopped.
pub open spec fn agrees_text_at(r: (Result<String, DecodeError>, usize), s: Result<(Seq<char>, int), DecodeError>, end: int) -> bool {
    &&& r.1 == end
    &&& match r.0 {
        Ok(v) => s == Ok::<(Seq<char>, int), DecodeError>((v@, end)),
        Err(x) => s == Err::<(Seq<char>, int), DecodeError>(x),
    }
}

/// Reads and validates the 3-byte variant type header: sig_len=1, `expected_sig`, null terminator.
/// Also tells where reading stopped: after the first byte that does not
/// match, or after all three.
fn read_variant_sig(src: &[u8], pos: usize, expected_sig: u8) -> (r: (Result<(), DecodeError>, usize))
    ensures
        r.1 == variant_sig_end(src@, pos as int, expected_sig),
        match r.0 {
            Ok(_) => crate::wire::read_variant_sig(src@, pos as int, expected_sig) == Ok::<int, DecodeError>(r.1 as int),
            Err(x) => crate::wire::read_variant_sig(src@, pos as int, expected_sig) == Err::<int, DecodeError>(x),
        },
{
    let n = src.len();
    let (len, p) = match read_u8_at(src, pos) {
        Ok(v) => v,
        Err(x) => return (Err(x), n),
    };
    if len != 1 {
        return (Err(DecodeError::VariantSignatureLength), p);
    }
    let (sig, p) = match read_u8_at(src, p) {
        Ok(v) => v,
        Err(x) => return (Err(x), n),
    };
    if sig != expected_sig {
        return (Err(DecodeError::VariantSignature), p);
    }
    let (nul, p) = match read_u8_at(src, p) {
        Ok(v) => v,
        Err(x) => return (Err(x), n),
    };
    if nul != 0 {
        return (Err(DecodeError::SignatureNotTerminated), p);
    }
    (Ok(()), p)
}

/// The `len` bytes at `pos`, which a nul must follow, as UTF-8 text; and
/// where reading stopped: after the nul, whether or not the text is accepted.
fn read_text(src: &[u8], pos: usize, len: usize) -> (r: (Result<String, DecodeError>, usize))
    ensures
        agrees_text_at(r, crate::wire::read_text(src@, pos as int, len as int), text_end(src@, pos as int, len as int)),
{
    let n = src.len();
    if !(pos <= n && n - pos >= len) {
        return (Err(DecodeError::UnexpectedEof), n);
    }
    let end = pos + len;
    let (nul, p) = match read_u8_at(src, end) {
        Ok(v) => v,
        Err(x) => return (Err(x), n),
    };
    if nul != 0 {
        return (Err(DecodeError::StringNotTerminated), p);
    }
    let bytes = vstd::slice::slice_to_vec(vstd::slice::slice_subrange(src, pos, end));
    match string_from_utf8(bytes) {
        Some(s) => (Ok(s), p),
        None => (Err(DecodeError::InvalidUtf8), p),
    }
}

/// Reads a u32-length-prefixed string followed by a null terminator.
/// Used for D-Bus types `s` (STRING) and `o` (OBJECT_PATH).
fn read_string(src: &[u8], pos: usize, e: Endianness) -> (r: (Result<String, DecodeError>, usize))
    ensures
        agrees_text_at(r, crate::wire::read_string(src@, pos as int, e), string_end(src@, pos as int, e)),
{
    let (len, p) = match read_u32_at(src, pos, e) {
        Ok(v) => v,
        Err(x) => return (Err(x), src.len()),
    };
    read_text(src, p, len as usize)
}

/// Reads a u8-length-prefixed string followed by a null terminator.
/// Used for D-Bus type `g` (SIGNATURE).
fn read_sig_string(src: &[u8], pos: usize) -> (r: (Result<String, DecodeError>, usize))
    ensures
        agrees_text_at(r, crate::wire::read_sig_string(src@, pos as int), sig_string_end(src@, pos as int)),
{
    let (len, p) = match read_u8_at(src, pos) {
        Ok(v) => v,
        Err(x) => return (Err(x), src.len()),
    };
    read_text(src, p, len as usize)
}

/// Decodes one header field at `pos` into `fields`.
fn decode_field_at(src: &[u8], pos: usize, e: Endianness, fields: &mut Fields) -> (r: Result<usize, DecodeError>)
    requires
        pos <= src@.len(),
    ensures
        match r {
            Ok(p) => decode_field(src@, pos as int, e, old(fields)@) == Ok::<(FieldsV, int), DecodeError>((final(fields)@, p as int)),
            Err(x) => decode_field(src@, pos as int, e, old(fields)@) == Err::<(FieldsV, int), DecodeError>(x),
        },
{
    // Each field is STRUCT(BYTE, VARIANT), structs align to 8.
    let pad = (8 - pos % 8) % 8;
    if src.len() - pos < pad {
        return Err(DecodeError::UnexpectedEof);
    }
    let (code, p) = read_u8_at(src, pos + pad)?;
    let field = HeaderField::from_code(code)?;
    let ghost acc = fields@;
    match field {
        HeaderField::Path => {
            let (sig, p) = read_variant_sig(src, p, SIG_OBJECT_PATH);
            sig?;
            let (s, q) = read_string(src, p, e);
            let s = s?;
            match ObjectPath::new(s.as_str()) {
                Ok(path) => {
                    fields.path = Some(path);
                    assert(fields@ == set_text(acc, field, s@));
                    Ok(q)
                },
                Err(_) => Err(DecodeError::InvalidObjectPath),
            }
        },
        HeaderField::Interface | HeaderField::Member | HeaderField::ErrorName
        | HeaderField::Destination | HeaderField::Sender => {
            let (sig, p) = read_variant_sig(src, p, SIG_STRING);
            sig?;
            let (s, q) = read_string(src, p, e);
            let s = s?;
            match field {
                HeaderField::Interface => fields.interface = Some(s),
                HeaderField::Member => fields.member = Some(s),
                HeaderField::ErrorName => fields.error_name = Some(s),
                HeaderField::Destination => fields.destination = Some(s),
                _ => fields.sender = Some(s),
            }
            Ok(q)
        },
        HeaderField::Signature => {
            let (sig, p) = read_variant_sig(src, p, SIG_SIGNATURE);
            sig?;
            let (s, q) = read_sig_string(src, p);
            let s = s?;
            fields.signature = Some(s);
            Ok(q)
        },
        HeaderField::ReplySerial | HeaderField::UnixFds => {
            let (sig, p) = read_variant_sig(src, p, SIG_U32);
            sig?;
            let (v, q) = read_u32_at(src, p, e)?;
            match field {
                HeaderField::ReplySerial => fields.reply_serial = Some(v),
                _ => fields.unix_fds = if v == 0 { None } else { Some(v) },
            }
            Ok(q)
        },
    }
}

/// `n` nul bytes.
pub open spec fn zeros(n: int) -> Seq<u8> {
    Seq::new(n as nat, |i: int| 0u8)
}

/// Appends nul bytes to `dst` until its length is a multiple of `align`, a
/// power of two. An already aligned length is left as it is.
fn align_to(dst: &mut Vec<u8>, align: usize)
    requires
        align > 0,
        align & ((align - 1) as usize) == 0,
    ensures
        final(dst)@ == old(dst)@ + zeros((align as int - (old(dst)@.len() as int) % (align as int)) % (align as int)),
        (final(dst)@.len() as int) % (align as int) == 0,
        (old(dst)@.len() as int) % (align as int) == 0 ==> final(dst)@ == old(dst)@,
{
    let pad = (align - dst.len() % align) % align;
    let ghost start = dst@;
    let mut i: usize = 0;
    while i < pad
        invariant
            0 <= i <= pad,
            dst@ == start + zeros(i as int),
        decreases pad - i,
    {
        dst.push(0);
        i = i + 1;
        assert(dst@ =~= start + zeros(i as int));
    }
    proof {
        vstd::arithmetic::div_mod::lemma_mod_self_0(align as int);
    }
    assert((start.len() as int) % (align as int) == 0 ==> dst@ =~= start);
    proof {
        lemma_pad_aligns(start.len() as int, align as int);
    }
}

/// Padding a length up by `(a - n % a) % a` makes it a multiple of `a`.
proof fn lemma_pad_aligns(n: int, a: int)
    requires
        n >= 0,
        a > 0,
    ensures
        (n + (a - n % a) % a) % a == 0,
{
    let r = n % a;
    vstd::arithmetic::div_mod::lemma_fundamental_div_mod(n, a);
    if r == 0 {
        vstd::arithmetic::div_mod::lemma_mod_self_0(a);
        assert((a - r) % a == 0);
    } else {
        vstd::arithmetic::div_mod::lemma_small_mod((a - r) as nat, a as nat);
        assert(n + (a - r) == (n / a + 1) * a) by (nonlinear_arith)
            requires
                n == a * (n / a) + r;
        vstd::arithmetic::div_mod::lemma_mod_multiples_basic(n / a + 1, a);
    }
}

proof fn lemma_pad8(b: Seq<u8>)
    ensures
        pad8(b) == b + zeros((8 - (b.len() as int) % 8) % 8),
{
    let n = b.len() as int;
    assert(round8(n) - n == (8 - n % 8) % 8);
    assert(pad8(b) =~= b + zeros((8 - (b.len() as int) % 8) % 8));
}

/// Pads `dst` to a multiple of 8.
fn align_to_8(dst: &mut Vec<u8>)
    ensures
        final(dst)@ == pad8(old(dst)@),
{
    proof {
        lemma_pad8(dst@);
    }
    assert(8usize & 7usize == 0) by (bit_vector);
    align_to(dst, 8);
}

/// Appends `val` in byte order `e`.
fn put_u32(dst: &mut Vec<u8>, e: Endianness, val: u32)
    ensures
        final(dst)@ == old(dst)@ + e.bytes_of(val as nat, 4),
        e.bytes_of(val as nat, 4).len() == 4,
{
    let b = e.u32_to_bytes(val);
    dst.push(b[0]);
    dst.push(b[1]);
    dst.push(b[2]);
    dst.push(b[3]);
    assert(final(dst)@ =~= old(dst)@ + e.bytes_of(val as nat, 4));
}

/// Appends the bytes of `src`.
pub(crate) fn put_bytes(dst: &mut Vec<u8>, src: &[u8])
    ensures
        final(dst)@ == old(dst)@ + src@,
{
    let ghost start = dst@;
    let mut i: usize = 0;
    while i < src.len()
        invariant
            0 <= i <= src@.len(),
            dst@ == start + src@.take(i as int),
        decreases src@.len() - i,
    {
        dst.push(src[i]);
        i = i + 1;
        assert(dst@ =~= start + src@.take(i as int));
    }
    assert(src@.take(src@.len() as int) =~= src@);
}

/// Encodes a string-like header field (types `'s'`, `'o'`, or `'g'`) into `dst`.
/// Path uses sig `b'o'`, signature field uses `b'g'` with a u8 length prefix;
/// all other string fields use `b's'`.
fn encode_str_field(dst: &mut Vec<u8>, field: HeaderField, sig: u8, s: &str, endianness: Endianness)
    ensures
        final(dst)@ == put_text(old(dst)@, field.spec_code(), sig, s@, endianness),
{
    align_to_8(dst);
    dst.push(field.code());
    dst.push(1);
    dst.push(sig);
    dst.push(0);
    let bytes = s.as_bytes();
    if sig == SIG_SIGNATURE {
        dst.push(bytes.len() as u8);
    } else {
        put_u32(dst, endianness, bytes.len() as u32);
    }
    put_bytes(dst, bytes);
    dst.push(0);
    assert(final(dst)@ =~= put_text(old(dst)@, field.spec_code(), sig, s@, endianness));
}

/// Encodes a u32 header field (type `'u'`) into `dst`.
fn encode_u32_field(dst: &mut Vec<u8>, field: HeaderField, val: u32, endianness: Endianness)
    ensures
        final(dst)@ == put_number_field(old(dst)@, field, val, endianness),
{
    align_to_8(dst);
    dst.push(field.code());
    dst.push(1);
    dst.push(SIG_U32);
    dst.push(0);
    put_u32(dst, endianness, val);
    assert(final(dst)@ =~= put_number_field(old(dst)@, field, val, endianness));
}

/// Appends the present header fields of `h`.
#[verifier::spinoff_prover]
fn encode_header_fields(dst: &mut Vec<u8>, h: &Header)
    ensures
        final(dst)@ == put_fields(old(dst)@, h.fields_view(), h.endianness),
{
    let e = h.endianness;
    let ghost f = h.fields_view();
    let ghost b0 = dst@;
    if let Some(path) = &h.path {
        encode_str_field(dst, HeaderField::Path, SIG_OBJECT_PATH, path.as_str(), e);
    }
    assert(dst@ == put_opt_text(b0, HeaderField::Path, f.path, e));
    let ghost b1 = dst@;
    if let Some(interface) = &h.interface {
        encode_str_field(dst, HeaderField::Interface, SIG_STRING, interface.as_str(), e);
    }
    assert(dst@ == put_opt_text(b1, HeaderField::Interface, f.interface, e));
    let ghost b2 = dst@;
    if let Some(member) = &h.member {
        encode_str_field(dst, HeaderField::Member, SIG_STRING, member.as_str(), e);
    }
    assert(dst@ == put_opt_text(b2, HeaderField::Member, f.member, e));
    let ghost b3 = dst@;
    if let Some(error_name) = &h.error_name {
        encode_str_field(dst, HeaderField::ErrorName, SIG_STRING, error_name.as_str(), e);
    }
    assert(dst@ == put_opt_text(b3, HeaderField::ErrorName, f.error_name, e));
    let ghost b4 = dst@;
    if let Some(reply_serial) = h.reply_serial {
        encode_u32_field(dst, HeaderField::ReplySerial, reply_serial, e);
    }
    assert(dst@ == put_opt_number(b4, HeaderField::ReplySerial, f.reply_serial, e));
    let ghost b5 = dst@;
    if let Some(destination) = &h.destination {
        encode_str_field(dst, HeaderField::Destination, SIG_STRING, destination.as_str(), e);
    }
    assert(dst@ == put_opt_text(b5, HeaderField::Destination, f.destination, e));
    let ghost b6 = dst@;
    if let Some(sender) = &h.sender {
        encode_str_field(dst, HeaderField::Sender, SIG_STRING, sender.as_str(), e);
    }
    assert(dst@ == put_opt_text(b6, HeaderField::Sender, f.sender, e));
    let ghost b7 = dst@;
    if let Some(signature) = &h.signature {
        encode_str_field(dst, HeaderField::Signature, SIG_SIGNATURE, signature.as_str(), e);
    }
    assert(dst@ == put_opt_text(b7, HeaderField::Signature, f.signature, e));
    let ghost b8 = dst@;
    if let Some(unix_fds) = h.unix_fds {
        encode_u32_field(dst, HeaderField::UnixFds, unix_fds, e);
    }
    assert(dst@ == put_opt_number(b8, HeaderField::UnixFds, f.unix_fds, e));
}

impl Message {
    /// The bytes of this message. The body length written is that of the body.
    #[verifier::spinoff_prover]
    pub fn encode_to_vec(&self) -> (r: Vec<u8>)
        ensures
            r@ == spec_encode(self@),
    {
        let h = &self.header;
        let e = h.endianness;
        let mut dst: Vec<u8> = Vec::new();
        dst.push(e.marker());
        dst.push(h.message_type.code());
        dst.push(h.flags.bits());
        dst.push(h.version);
        put_u32(&mut dst, e, self.body.len() as u32);
        put_u32(&mut dst, e, h.serial);
        // The array length goes here; it is known once the fields are written.
        put_u32(&mut dst, e, 0);
        assert(dst@ =~= header_start(self@));
        encode_header_fields(&mut dst, h);
        proof {
            reveal(header_with_fields);
            lemma_put_fields_extends(header_start(self@), self@.fields, e);
        }
        assert(dst@ == header_with_fields(self@));

        let ghost hw = dst@;
        let array_len = (dst.len() - 16) as u32;
        let lb = e.u32_to_bytes(array_len);
        dst.set(12, lb[0]);
        dst.set(13, lb[1]);
        dst.set(14, lb[2]);
        dst.set(15, lb[3]);
        assert(dst@ =~= hw.subrange(0, 12) + e.bytes_of(array_len as nat, 4) + hw.subrange(16, hw.len() as int));

        // The header is a multiple of 8 long, so the body starts 8-aligned.
        align_to_8(&mut dst);
        put_bytes(&mut dst, self.body.as_slice());
        dst
    }

    /// Decodes the message at the start of `src`, and tells how many bytes it
    /// takes. Where `src` ends before the message does, the result is
    /// `UnexpectedEof`.
    #[verifier::loop_isolation(false)]
    pub fn decode_bytes(src: &[u8]) -> (r: Result<(Message, usize), DecodeError>)
        ensures
            match r {
                Ok((m, n)) => spec_decode(src@) == Ok::<(MessageV, int), DecodeError>((m@, n as int)),
                Err(x) => spec_decode(src@) == Err::<(MessageV, int), DecodeError>(x),
            },
    {
        let (eb, _) = read_u8_at(src, 0)?;
        let endianness = match Endianness::from_marker(eb) {
            Ok(e) => e,
            Err(_) => return Err(DecodeError::InvalidEndianness),
        };
        let (tb, _) = read_u8_at(src, 1)?;
        let message_type = match MessageType::from_code(tb) {
            Ok(t) => t,
            Err(_) => return Err(DecodeError::UnknownMessageType),
        };
        let (flag_bits, _) = read_u8_at(src, 2)?;
        let flags = Flags::from_bits_retain(flag_bits);
        let (version, _) = read_u8_at(src, 3)?;
        let (body_length, _) = read_u32_at(src, 4, endianness)?;
        let (serial, _) = read_u32_at(src, 8, endianness)?;
        if serial == 0 {
            return Err(DecodeError::ZeroSerial);
        }
        let (array_len, _) = read_u32_at(src, 12, endianness)?;
        let array_end: u64 = 16 + array_len as u64;
        let header_size: u64 = (array_end + 7) / 8 * 8;

        let mut fields = Fields {
            path: None,
            interface: None,
            member: None,
            error_name: None,
            reply_serial: None,
            destination: None,
            sender: None,
            signature: None,
            unix_fds: None,
        };
        let mut pos: usize = 16;
        let ghost s = src@;
        assert(fields@ == no_fields());
        while (pos as u64) < array_end
            invariant
                s == src@,
                16 <= pos <= s.len(),
                array_end == 16 + array_len,
                decode_fields(s, 16, array_end as int, endianness, no_fields())
                    == decode_fields(s, pos as int, array_end as int, endianness, fields@),
            decreases s.len() - pos,
        {
            proof {
                lemma_decode_field_advances(s, pos as int, endianness, fields@);
            }
            pos = decode_field_at(src, pos, endianness, &mut fields)?;
        }

        // The fields fill the declared array exactly; the body starts at the
        // array's end padded to a multiple of 8.
        if pos as u64 != array_end {
            return Err(DecodeError::HeaderFieldsOverrun);
        }
        if header_size + body_length as u64 > src.len() as u64 {
            return Err(DecodeError::UnexpectedEof);
        }
        let body_start: usize = header_size as usize;
        let body_end: usize = body_start + body_length as usize;
        let body = vstd::slice::slice_to_vec(vstd::slice::slice_subrange(src, body_start, body_end));

        let header = Header {
            endianness,
            message_type,
            flags,
            version,
            body_length,
            serial,
            path: fields.path,
            interface: fields.interface,
            member: fields.member,
            error_name: fields.error_name,
            reply_serial: fields.reply_serial,
            destination: fields.destination,
            sender: fields.sender,
            signature: fields.signature,
            unix_fds: fields.unix_fds,
        };
        Ok((Message { header, body }, body_end))
    }
}

} // verus!
