//! Message framing over a `bytes::BytesMut` buffer: finding where a message
//! ends, splitting it off and decoding it; and appending encoded messages.
use vstd::prelude::*;

use bytes::BytesMut;

use crate::endianness::Endianness;
use crate::message::Message;
use crate::wire::{round8, spec_decode, DecodeError, MessageV};
use crate::wire_laws::{four_bytes_value, lemma_value_of_four, up8};

verus! {

/// `bytes::BytesMut`, a growable byte buffer.
#[verifier::external_type_specification]
#[verifier::external_body]
pub struct ExBytesMut(BytesMut);

/// The bytes that a `BytesMut` holds.
pub uninterp spec fn bytes_contents(b: BytesMut) -> Seq<u8>;

/// `<BytesMut as AsRef<[u8]>>::as_ref`: the bytes held, as a slice.
#[verifier::external_body]
fn bytes_as_slice(b: &BytesMut) -> (r: &[u8])
    ensures
        r@ == bytes_contents(*b),
{
    b.as_ref()
}

/// `BytesMut::split_to`: takes the first `at` bytes off into a buffer of their own.
/// It panics where `at` is beyond the end, which `requires` rules out.
#[verifier::external_body]
fn bytes_split_to(b: &mut BytesMut, at: usize) -> (r: BytesMut)
    requires
        at <= bytes_contents(*old(b)).len(),
    ensures
        bytes_contents(r) == bytes_contents(*old(b)).take(at as int),
        bytes_contents(*final(b)) == bytes_contents(*old(b)).skip(at as int),
{
    b.split_to(at)
}

/// `<BytesMut as Buf>::advance`: drops the first `cnt` bytes. It panics
/// where `cnt` is beyond the end, which `requires` rules out.
#[verifier::external_body]
fn bytes_advance(b: &mut BytesMut, cnt: usize)
    requires
        cnt <= bytes_contents(*old(b)).len(),
    ensures
        bytes_contents(*final(b)) == bytes_contents(*old(b)).skip(cnt as int),
{
    bytes::Buf::advance(b, cnt)
}

/// `BytesMut::reserve`: makes room for `additional` more bytes; the bytes
/// held stay as they are. It panics where the new capacity overflows, which
/// `requires` rules out.
#[verifier::external_body]
fn bytes_reserve(b: &mut BytesMut, additional: usize)
    requires
        bytes_contents(*old(b)).len() + additional <= isize::MAX,
    ensures
        bytes_contents(*final(b)) == bytes_contents(*old(b)),
{
    b.reserve(additional)
}

/// `BytesMut::extend_from_slice`: appends the bytes of `s`. It reserves room
/// first, which panics where the new capacity overflows; `requires` rules
/// that out.
#[verifier::external_body]
fn bytes_extend_from_slice(b: &mut BytesMut, s: &[u8])
    requires
        bytes_contents(*old(b)).len() + s@.len() <= isize::MAX,
    ensures
        bytes_contents(*final(b)) == bytes_contents(*old(b)) + s@,
{
    b.extend_from_slice(s)
}

/// The length of the message that `s` starts with, read from its fixed
/// header: the header rounded up to 8 plus the body. `None` where fewer than
/// 16 bytes are there to tell.
pub open spec fn spec_frame_size(s: Seq<u8>) -> Result<Option<int>, DecodeError> {
    if s.len() < 16 {
        Ok(None)
    } else {
        match Endianness::spec_from_marker(s[0]) {
            Err(_) => Err(DecodeError::InvalidEndianness),
            Ok(e) => {
                let body_length = e.value_of(s.subrange(4, 8));
                let array_len = e.value_of(s.subrange(12, 16));
                Ok(Some(round8(16 + array_len as int) + body_length))
            },
        }
    }
}

/// What one decoding step of the codec gives for the buffer `s`, and the
/// bytes it leaves: nothing while the next message is incomplete; otherwise
/// that message, split off the buffer whether it decodes or not. A complete
/// message of an unknown type is split off and passed over, and the step goes
/// on with the bytes after it.
pub open spec fn spec_codec_decode(s: Seq<u8>) -> (Result<Option<MessageV>, DecodeError>, Seq<u8>)
    decreases s.len(),
{
    match spec_frame_size(s) {
        Err(x) => (Err(x), s),
        Ok(None) => (Ok(None), s),
        Ok(Some(n)) => if s.len() < n {
            (Ok(None), s)
        } else {
            match spec_decode(s.take(n)) {
                Ok((m, _)) => (Ok(Some(m)), s.skip(n)),
                Err(DecodeError::UnknownMessageType) => {
                    proof {
                        lemma_frame_size_positive(s);
                    }
                    spec_codec_decode(s.skip(n))
                },
                Err(x) => (Err(x), s.skip(n)),
            }
        },
    }
}

/// A frame is at least as long as the fixed header.
pub proof fn lemma_frame_size_positive(s: Seq<u8>)
    ensures
        spec_frame_size(s) matches Ok(Some(n)) ==> n >= 16,
{
    if spec_frame_size(s) matches Ok(Some(n)) {
        let e = Endianness::spec_from_marker(s[0])->Ok_0;
        let a = e.value_of(s.subrange(12, 16)) as int;
        assert(round8(16 + a) >= 16) by (nonlinear_arith)
            requires
                a >= 0,
                round8(16 + a) == (16 + a + 7) / 8 * 8;
    }
}

/// Where the buffer holds a complete message of a known type, one decoding
/// step splits off exactly that message's bytes, leaves those after it as
/// they are, and gives what decoding those bytes alone gives.
pub proof fn lemma_codec_takes_one_frame(s: Seq<u8>, n: int)
    requires
        spec_frame_size(s) == Ok::<Option<int>, DecodeError>(Some(n)),
        n <= s.len(),
        spec_decode(s.take(n)) != Err::<(MessageV, int), DecodeError>(DecodeError::UnknownMessageType),
    ensures
        spec_codec_decode(s).1 == s.skip(n),
        spec_codec_decode(s).0 == match spec_decode(s.take(n)) {
            Ok((m, _)) => Ok::<Option<MessageV>, DecodeError>(Some(m)),
            Err(x) => Err::<Option<MessageV>, DecodeError>(x),
        },
{
}

/// A complete message of an unknown type is passed over: the step gives what
/// it gives for the bytes after it.
pub proof fn lemma_codec_skips_unknown_type(s: Seq<u8>, n: int)
    requires
        spec_frame_size(s) == Ok::<Option<int>, DecodeError>(Some(n)),
        n <= s.len(),
        spec_decode(s.take(n)) == Err::<(MessageV, int), DecodeError>(DecodeError::UnknownMessageType),
    ensures
        spec_codec_decode(s) == spec_codec_decode(s.skip(n)),
{
}

/// While the buffer holds less than the whole next message, a decoding step
/// waits: it gives nothing and leaves the buffer as it is. Under 16 bytes the
/// length is not known yet; from there it is read from the fixed header: the
/// field array's length (bytes 12 to 16) after the 16 fixed bytes, padded to
/// a multiple of 8, plus the body's length (bytes 4 to 8), both in the byte
/// order that byte 0 names (`l` least significant first, `B` most).
pub proof fn law_codec_waits_for_whole_message(s: Seq<u8>)
    requires
        s.len() < 16 || ({
            let little = s[0] == 0x6c;
            &&& (s[0] == 0x6c || s[0] == 0x42)
            &&& s.len() < up8(16 + four_bytes_value(little, s.subrange(12, 16)))
                + four_bytes_value(little, s.subrange(4, 8))
        }),
    ensures
        spec_codec_decode(s) == (Ok::<Option<MessageV>, DecodeError>(None), s),
{
    if s.len() >= 16 {
        let e = Endianness::spec_from_marker(s[0])->Ok_0;
        lemma_value_of_four(e, s.subrange(12, 16));
        lemma_value_of_four(e, s.subrange(4, 8));
    }
}

/// Whether `len + extra` bytes stay within what a buffer can hold.
fn fits_isize(len: usize, extra: u64) -> (r: bool)
    ensures
        r == (len + extra <= isize::MAX),
{
    extra <= isize::MAX as u64 && len as u64 <= isize::MAX as u64 - extra
}

/// The number of bytes that `b` holds.
pub fn buffer_len(b: &BytesMut) -> (r: usize)
    ensures
        r == bytes_contents(*b).len(),
{
    bytes_as_slice(b).len()
}

impl Message {
    /// The length of the message that `src` starts with, once its 16-byte
    /// fixed header is there.
    pub fn peek_frame_size(src: &[u8]) -> (r: Result<Option<u64>, DecodeError>)
        ensures
            match r {
                Ok(Some(n)) => spec_frame_size(src@) == Ok::<Option<int>, DecodeError>(Some(n as int)),
                Ok(None) => spec_frame_size(src@) == Ok::<Option<int>, DecodeError>(None),
                Err(x) => spec_frame_size(src@) == Err::<Option<int>, DecodeError>(x),
            },
            r matches Ok(Some(n)) ==> n <= 0x2_0000_0010,
    {
        if src.len() < 16 {
            return Ok(None);
        }
        let e = match Endianness::from_marker(src[0]) {
            Ok(e) => e,
            Err(_) => return Err(DecodeError::InvalidEndianness),
        };
        let body_bytes = [src[4], src[5], src[6], src[7]];
        let array_bytes = [src[12], src[13], src[14], src[15]];
        assert(body_bytes@ =~= src@.subrange(4, 8));
        assert(array_bytes@ =~= src@.subrange(12, 16));
        let body_length = e.u32_from_bytes(body_bytes) as u64;
        let array_len = e.u32_from_bytes(array_bytes) as u64;
        Ok(Some((16 + array_len + 7) / 8 * 8 + body_length))
    }

    /// Decodes the message at the start of `src` and drops its bytes from `src`.
    /// Where it does not decode, `src` is left as it was.
    pub fn decode(src: &mut BytesMut) -> (r: Result<Message, DecodeError>)
        ensures
            match r {
                Ok(m) => spec_decode(bytes_contents(*old(src))) matches Ok((mv, n))
                    && m@ == mv && bytes_contents(*final(src)) == bytes_contents(*old(src)).skip(n),
                Err(x) => spec_decode(bytes_contents(*old(src))) == Err::<(MessageV, int), DecodeError>(x)
                    && bytes_contents(*final(src)) == bytes_contents(*old(src)),
            },
    {
        let (m, n) = Message::decode_bytes(bytes_as_slice(src))?;
        bytes_advance(src, n);
        Ok(m)
    }

    /// Appends the bytes of this message to `dst`.
    pub fn encode(self, dst: &mut BytesMut)
        requires
            bytes_contents(*old(dst)).len() + crate::wire::spec_encode(self@).len() <= isize::MAX,
        ensures
            bytes_contents(*final(dst)) == bytes_contents(*old(dst)) + crate::wire::spec_encode(self@),
    {
        let v = self.encode_to_vec();
        bytes_extend_from_slice(dst, v.as_slice());
    }
}

/// Splits D-Bus messages off a byte stream and writes them to one.
#[derive(Debug)]
pub struct MessageCodec {}

impl MessageCodec {
    pub fn new() -> (r: Self) {
        MessageCodec {}
    }

    /// One decoding step: the next message where the buffer holds all of it,
    /// nothing (with room reserved for more) where it does not yet. Complete
    /// messages of an unknown type are dropped on the way.
    pub fn decode(&mut self, src: &mut BytesMut) -> (r: Result<Option<Message>, DecodeError>)
        ensures
            bytes_contents(*final(src)) == spec_codec_decode(bytes_contents(*old(src))).1,
            match r {
                Ok(Some(m)) => spec_codec_decode(bytes_contents(*old(src))).0
                    == Ok::<Option<MessageV>, DecodeError>(Some(m@)),
                Ok(None) => spec_codec_decode(bytes_contents(*old(src))).0 == Ok::<Option<MessageV>, DecodeError>(None),
                Err(x) => spec_codec_decode(bytes_contents(*old(src))).0 == Err::<Option<MessageV>, DecodeError>(x),
            },
    {
        loop
            invariant
                spec_codec_decode(bytes_contents(*src)) == spec_codec_decode(bytes_contents(*old(src))),
            decreases bytes_contents(*src).len(),
        {
            let ghost before = bytes_contents(*src);
            let total_size: u64 = match Message::peek_frame_size(bytes_as_slice(src)) {
                Err(x) => return Err(x),
                Ok(None) => {
                    let len = bytes_as_slice(src).len();
                    if fits_isize(len, 16) {
                        bytes_reserve(src, 16);
                    }
                    return Ok(None);
                },
                Ok(Some(n)) => n,
            };
            let len = bytes_as_slice(src).len();

            // Make sure we have the whole body
            if (len as u64) < total_size {
                let more: u64 = total_size - len as u64;
                if fits_isize(len, more) {
                    bytes_reserve(src, more as usize);
                }
                return Ok(None);
            }

            // The whole message is there: split it off, so that nothing of it
            // stays in the buffer whatever decoding it gives.
            let mut frame = bytes_split_to(src, total_size as usize);
            proof {
                lemma_frame_size_positive(before);
            }
            match Message::decode(&mut frame) {
                Ok(m) => return Ok(Some(m)),
                Err(DecodeError::UnknownMessageType) => {},
                Err(x) => return Err(x),
            }
        }
    }

    /// Appends the bytes of `msg` to `dst` where the buffer can hold them
    /// all, and tells whether it did; where it cannot, `dst` is left as it was.
    pub fn try_encode(&mut self, msg: Message, dst: &mut BytesMut) -> (r: bool)
        ensures
            r == (bytes_contents(*old(dst)).len() + crate::wire::spec_encode(msg@).len() <= isize::MAX),
            r ==> bytes_contents(*final(dst)) == bytes_contents(*old(dst)) + crate::wire::spec_encode(msg@),
            !r ==> bytes_contents(*final(dst)) == bytes_contents(*old(dst)),
    {
        let v = msg.encode_to_vec();
        let len = buffer_len(dst);
        if fits_isize(len, v.len() as u64) {
            bytes_extend_from_slice(dst, v.as_slice());
            true
        } else {
            false
        }
    }

    /// Appends the bytes of `msg` to `dst`.
    pub fn encode(&mut self, msg: Message, dst: &mut BytesMut)
        requires
            bytes_contents(*old(dst)).len() + crate::wire::spec_encode(msg@).len() <= isize::MAX,
        ensures
            bytes_contents(*final(dst)) == bytes_contents(*old(dst)) + crate::wire::spec_encode(msg@),
    {
        msg.encode(dst)
    }
}

} // verus!
