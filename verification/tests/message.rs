use abus::codec::MessageCodec;
use abus::{DecodeError, Endianness, Flags, Header, HeaderField, Message, MessageType, ObjectPath};
use bytes::BytesMut;

const HELLO: [u8; 128] = [
    0x6c, 0x01, 0x00, 0x01, 0x00, 0x00, 0x00, 0x00, 0x01, 0x00, 0x00, 0x00, 0x6d, 0x00, 0x00, 0x00,
    0x01, 0x01, 0x6f, 0x00, 0x15, 0x00, 0x00, 0x00, 0x2f, 0x6f, 0x72, 0x67, 0x2f, 0x66, 0x72, 0x65,
    0x65, 0x64, 0x65, 0x73, 0x6b, 0x74, 0x6f, 0x70, 0x2f, 0x44, 0x42, 0x75, 0x73, 0x00, 0x00, 0x00,
    0x02, 0x01, 0x73, 0x00, 0x14, 0x00, 0x00, 0x00, 0x6f, 0x72, 0x67, 0x2e, 0x66, 0x72, 0x65, 0x65,
    0x64, 0x65, 0x73, 0x6b, 0x74, 0x6f, 0x70, 0x2e, 0x44, 0x42, 0x75, 0x73, 0x00, 0x00, 0x00, 0x00,
    0x03, 0x01, 0x73, 0x00, 0x05, 0x00, 0x00, 0x00, 0x48, 0x65, 0x6c, 0x6c, 0x6f, 0x00, 0x00, 0x00,
    0x06, 0x01, 0x73, 0x00, 0x14, 0x00, 0x00, 0x00, 0x6f, 0x72, 0x67, 0x2e, 0x66, 0x72, 0x65, 0x65,
    0x64, 0x65, 0x73, 0x6b, 0x74, 0x6f, 0x70, 0x2e, 0x44, 0x42, 0x75, 0x73, 0x00, 0x00, 0x00, 0x00,
];

const REPLY: [u8; 89] = [
    0x42, 0x02, 0x01, 0x01, 0x00, 0x00, 0x00, 0x09, 0x00, 0x00, 0x00, 0x07, 0x00, 0x00, 0x00, 0x3f,
    0x05, 0x01, 0x75, 0x00, 0x00, 0x00, 0x00, 0x01, 0x06, 0x01, 0x73, 0x00, 0x00, 0x00, 0x00, 0x04,
    0x3a, 0x31, 0x2e, 0x35, 0x00, 0x00, 0x00, 0x00, 0x07, 0x01, 0x73, 0x00, 0x00, 0x00, 0x00, 0x14,
    0x6f, 0x72, 0x67, 0x2e, 0x66, 0x72, 0x65, 0x65, 0x64, 0x65, 0x73, 0x6b, 0x74, 0x6f, 0x70, 0x2e,
    0x44, 0x42, 0x75, 0x73, 0x00, 0x00, 0x00, 0x00, 0x08, 0x01, 0x67, 0x00, 0x01, 0x73, 0x00, 0x00,
    0x00, 0x00, 0x00, 0x04, 0x3a, 0x31, 0x2e, 0x35, 0x00,
];

fn hello() -> Message {
    Message {
        header: Header {
            endianness: Endianness::LittleEndian,
            message_type: MessageType::MethodCall,
            flags: Flags::empty(),
            version: 1,
            body_length: 0,
            serial: 1,
            path: Some(ObjectPath::new("/org/freedesktop/DBus").unwrap()),
            interface: Some("org.freedesktop.DBus".to_owned()),
            member: Some("Hello".to_owned()),
            error_name: None,
            reply_serial: None,
            destination: Some("org.freedesktop.DBus".to_owned()),
            sender: None,
            signature: None,
            unix_fds: None,
        },
        body: Vec::new(),
    }
}

fn reply() -> Message {
    Message {
        header: Header {
            endianness: Endianness::BigEndian,
            message_type: MessageType::MethodReturn,
            flags: Flags::no_reply_expected(),
            version: 1,
            body_length: 9,
            serial: 7,
            path: None,
            interface: None,
            member: None,
            error_name: None,
            reply_serial: Some(1),
            destination: Some(":1.5".to_owned()),
            sender: Some("org.freedesktop.DBus".to_owned()),
            signature: Some("s".to_owned()),
            unix_fds: None,
        },
        body: vec![0, 0, 0, 4, b':', b'1', b'.', b'5', 0],
    }
}

fn same(a: &Message, b: &Message) -> bool {
    let (x, y) = (&a.header, &b.header);
    x.endianness == y.endianness
        && x.message_type == y.message_type
        && x.flags == y.flags
        && x.version == y.version
        && x.body_length == y.body_length
        && x.serial == y.serial
        && x.path == y.path
        && x.interface == y.interface
        && x.member == y.member
        && x.error_name == y.error_name
        && x.reply_serial == y.reply_serial
        && x.destination == y.destination
        && x.sender == y.sender
        && x.signature == y.signature
        && x.unix_fds == y.unix_fds
        && a.body == b.body
}

#[test]
fn hello_encodes_to_known_bytes() {
    assert_eq!(hello().encode_to_vec(), HELLO.to_vec());
}

#[test]
fn big_endian_reply_encodes_to_known_bytes() {
    assert_eq!(reply().encode_to_vec(), REPLY.to_vec());
}

#[test]
fn hello_decodes_back() {
    let (m, n) = Message::decode_bytes(&HELLO).unwrap();
    assert_eq!(n, 128);
    assert!(same(&m, &hello()));
}

#[test]
fn reply_decodes_back_with_trailing_bytes() {
    let mut bytes = REPLY.to_vec();
    bytes.extend_from_slice(&[1, 2, 3]);
    let (m, n) = Message::decode_bytes(&bytes).unwrap();
    assert_eq!(n, 89);
    assert!(same(&m, &reply()));
    assert_eq!(m.header.flags.bits(), 1);
}

#[test]
fn encode_writes_body_length_of_body() {
    let mut m = reply();
    m.header.body_length = 1000;
    let bytes = m.encode_to_vec();
    assert_eq!(&bytes[4..8], &[0, 0, 0, 9]);
}

#[test]
fn header_is_padded_to_eight() {
    let bytes = reply().encode_to_vec();
    // Header ends at 80, the body (9 bytes) follows.
    assert_eq!(bytes.len(), 80 + 9);
    assert_eq!(u32::from_be_bytes([bytes[12], bytes[13], bytes[14], bytes[15]]), 63);
}

#[test]
fn decode_errors() {
    assert_eq!(Message::decode_bytes(&[]).err(), Some(DecodeError::UnexpectedEof));
    assert_eq!(Message::decode_bytes(b"x").err(), Some(DecodeError::InvalidEndianness));
    assert_eq!(Message::decode_bytes(b"l").err(), Some(DecodeError::UnexpectedEof));
    assert_eq!(Message::decode_bytes(&[b'l', 5]).err(), Some(DecodeError::UnknownMessageType));

    let mut zero_serial = HELLO;
    zero_serial[8] = 0;
    assert_eq!(Message::decode_bytes(&zero_serial).err(), Some(DecodeError::ZeroSerial));

    let mut unknown = HELLO;
    unknown[16] = 10;
    assert_eq!(Message::decode_bytes(&unknown).err(), Some(DecodeError::UnknownHeaderField(10)));

    let mut sig_len = HELLO;
    sig_len[17] = 2;
    assert_eq!(Message::decode_bytes(&sig_len).err(), Some(DecodeError::VariantSignatureLength));

    let mut sig = HELLO;
    sig[18] = b's';
    assert_eq!(Message::decode_bytes(&sig).err(), Some(DecodeError::VariantSignature));

    let mut sig_nul = HELLO;
    sig_nul[19] = 1;
    assert_eq!(Message::decode_bytes(&sig_nul).err(), Some(DecodeError::SignatureNotTerminated));

    let mut str_nul = HELLO;
    str_nul[45] = 1;
    assert_eq!(Message::decode_bytes(&str_nul).err(), Some(DecodeError::StringNotTerminated));

    let mut utf8 = HELLO;
    utf8[57] = 0xff;
    assert_eq!(Message::decode_bytes(&utf8).err(), Some(DecodeError::InvalidUtf8));

    let mut path = HELLO;
    path[30] = b'-';
    assert_eq!(Message::decode_bytes(&path).err(), Some(DecodeError::InvalidObjectPath));

    assert_eq!(Message::decode_bytes(&HELLO[..100]).err(), Some(DecodeError::UnexpectedEof));
}

#[test]
fn zero_unix_fds_decodes_as_none() {
    let mut m = reply();
    m.header.unix_fds = Some(3);
    let mut bytes = m.encode_to_vec();
    let (d, _) = Message::decode_bytes(&bytes).unwrap();
    assert_eq!(d.header.unix_fds, Some(3));
    // The count sits in the last four bytes of the header fields.
    let at = bytes.len() - 9 - 4;
    bytes[at..at + 4].copy_from_slice(&[0, 0, 0, 0]);
    let (d, _) = Message::decode_bytes(&bytes).unwrap();
    assert_eq!(d.header.unix_fds, None);
}

#[test]
fn peek_frame_size_reads_fixed_header() {
    assert_eq!(Message::peek_frame_size(&HELLO[..15]), Ok(None));
    assert_eq!(Message::peek_frame_size(&HELLO[..16]), Ok(Some(128)));
    assert_eq!(Message::peek_frame_size(&REPLY), Ok(Some(89)));
    let mut bad = HELLO;
    bad[0] = 0;
    assert_eq!(Message::peek_frame_size(&bad), Err(DecodeError::InvalidEndianness));
}

#[test]
fn codec_waits_for_whole_message() {
    let mut codec = MessageCodec::new();
    let mut buf = BytesMut::from(&HELLO[..10]);
    assert!(codec.decode(&mut buf).unwrap().is_none());
    assert_eq!(&buf[..], &HELLO[..10]);
    let mut buf = BytesMut::from(&HELLO[..100]);
    assert!(codec.decode(&mut buf).unwrap().is_none());
    assert_eq!(buf.len(), 100);
}

#[test]
fn codec_splits_messages_in_order() {
    let mut codec = MessageCodec::new();
    let mut buf = BytesMut::new();
    codec.encode(hello(), &mut buf);
    codec.encode(reply(), &mut buf);
    buf.extend_from_slice(&[0x6c, 1]);
    let first = codec.decode(&mut buf).unwrap().unwrap();
    assert!(same(&first, &hello()));
    let second = codec.decode(&mut buf).unwrap().unwrap();
    assert!(same(&second, &reply()));
    assert_eq!(&buf[..], &[0x6c, 1]);
    assert!(codec.decode(&mut buf).unwrap().is_none());
}

#[test]
fn codec_drops_frame_that_does_not_decode() {
    let mut codec = MessageCodec::new();
    let mut bytes = HELLO.to_vec();
    bytes[8] = 0;
    bytes.extend_from_slice(&REPLY);
    let mut buf = BytesMut::from(&bytes[..]);
    assert_eq!(codec.decode(&mut buf).err(), Some(DecodeError::ZeroSerial));
    assert_eq!(&buf[..], &REPLY[..]);
}

#[test]
fn message_decode_from_buffer_advances() {
    let mut buf = BytesMut::from(&REPLY[..]);
    buf.extend_from_slice(&[9, 9]);
    let m = Message::decode(&mut buf).unwrap();
    assert!(same(&m, &reply()));
    assert_eq!(&buf[..], &[9, 9]);
    let mut bad = BytesMut::from(&b"x"[..]);
    assert_eq!(Message::decode(&mut bad).err(), Some(DecodeError::InvalidEndianness));
    assert_eq!(&bad[..], b"x");
}

#[test]
fn message_encode_appends() {
    let mut buf = BytesMut::from(&[7u8][..]);
    hello().encode(&mut buf);
    assert_eq!(buf.len(), 129);
    assert_eq!(&buf[1..], &HELLO[..]);
}

#[test]
fn message_type_codes() {
    assert_eq!(u8::from(MessageType::Signal), 4);
    assert_eq!(MessageType::try_from(2), Ok(MessageType::MethodReturn));
    assert_eq!(MessageType::try_from(5), Err(5));
    assert_eq!(MessageType::from_code(0), Ok(MessageType::Invalid));
    assert_eq!(MessageType::Error.code(), 3);
}

#[test]
fn header_field_codes() {
    assert_eq!(HeaderField::try_from(9), Ok(HeaderField::UnixFds));
    assert_eq!(HeaderField::try_from(0), Err(DecodeError::UnknownHeaderField(0)));
    assert_eq!(HeaderField::Signature.code(), 8);
}

#[test]
fn flags_bits() {
    let mut f = Flags::empty();
    assert!(f.is_empty());
    f.insert(Flags::no_auto_start());
    assert!(f.contains(Flags::no_auto_start()));
    assert!(!f.contains(Flags::no_reply_expected()));
    let g = f.union(Flags::allow_interactive_authorization());
    assert_eq!(g.bits(), 6);
    assert_eq!(Flags::from_bits_retain(0xf0).bits(), 0xf0);
    assert_eq!(Flags::all().bits(), 0xff);
    let mut h = g;
    h.remove(Flags::no_auto_start());
    assert_eq!(h.bits(), 4);
}

#[test]
fn endianness_markers_and_numbers() {
    assert_eq!(u8::from(Endianness::LittleEndian), b'l');
    assert_eq!(u8::from(Endianness::BigEndian), b'B');
    assert_eq!(Endianness::try_from(b'B'), Ok(Endianness::BigEndian));
    assert_eq!(Endianness::try_from(b'x'), Err(b'x'));
    let le = Endianness::LittleEndian;
    let be = Endianness::BigEndian;
    assert_eq!(le.u32_to_bytes(0x0102_0304), [4, 3, 2, 1]);
    assert_eq!(be.u32_to_bytes(0x0102_0304), [1, 2, 3, 4]);
    assert_eq!(le.u32_from_bytes([4, 3, 2, 1]), 0x0102_0304);
    assert_eq!(be.u16_from_bytes([1, 2]), 0x0102);
    assert_eq!(le.u16_to_bytes(0x0102), [2, 1]);
    assert_eq!(be.u64_to_bytes(0x0102_0304_0506_0708), [1, 2, 3, 4, 5, 6, 7, 8]);
    assert_eq!(le.u64_from_bytes([8, 7, 6, 5, 4, 3, 2, 1]), 0x0102_0304_0506_0708);
}

#[test]
fn signed_numbers_in_both_orders() {
    let le = Endianness::LittleEndian;
    let be = Endianness::BigEndian;
    assert_eq!(le.i32_to_bytes(-2), [0xfe, 0xff, 0xff, 0xff]);
    assert_eq!(be.i32_from_bytes([0xff, 0xff, 0xff, 0xfe]), -2);
    assert_eq!(be.i16_to_bytes(-256), [0xff, 0x00]);
    assert_eq!(le.i16_from_bytes([0x00, 0x80]), i16::MIN);
    assert_eq!(le.i64_from_bytes(le.i64_to_bytes(-123456789012)), -123456789012);
    assert_eq!(be.i64_to_bytes(1), [0, 0, 0, 0, 0, 0, 0, 1]);
}

#[test]
fn fields_running_past_declared_array_are_refused() {
    // Array length 1, but the MEMBER field at 16 runs to byte 26; the frame
    // is 24 bytes of header and 12 of body.
    let mut frame = vec![b'l', 1, 0, 1, 12, 0, 0, 0, 1, 0, 0, 0, 1, 0, 0, 0];
    frame.extend_from_slice(&[3, 1, b's', 0, 1, 0, 0, 0, b'a', 0]);
    frame.resize(36, 0);
    assert_eq!(Message::decode_bytes(&frame).err(), Some(DecodeError::HeaderFieldsOverrun));
    let mut codec = MessageCodec::new();
    let mut buf = BytesMut::from(&frame[..]);
    assert_eq!(codec.decode(&mut buf).err(), Some(DecodeError::HeaderFieldsOverrun));
    assert!(buf.is_empty());
}

#[test]
fn body_starts_after_declared_header_padded_to_eight() {
    // Array length 10 holds one MEMBER field "a"; the header ends at 26 and
    // is padded to 32, where the 4-byte body starts.
    let mut frame = vec![b'l', 1, 0, 1, 4, 0, 0, 0, 1, 0, 0, 0, 10, 0, 0, 0];
    frame.extend_from_slice(&[3, 1, b's', 0, 1, 0, 0, 0, b'a', 0]);
    frame.extend_from_slice(&[0; 6]);
    frame.extend_from_slice(&[9, 8, 7, 6]);
    let (m, n) = Message::decode_bytes(&frame).unwrap();
    assert_eq!(n, 36);
    assert_eq!(m.header.member, Some("a".to_owned()));
    assert_eq!(m.body, vec![9, 8, 7, 6]);
}

#[test]
fn codec_skips_message_of_unknown_type() {
    let mut codec = MessageCodec::new();
    let mut bytes = HELLO.to_vec();
    bytes[1] = 5;
    bytes.extend_from_slice(&REPLY);
    let mut buf = BytesMut::from(&bytes[..]);
    let m = codec.decode(&mut buf).unwrap().unwrap();
    assert!(same(&m, &reply()));
    assert!(buf.is_empty());

    let mut alone = HELLO.to_vec();
    alone[1] = 9;
    let mut buf = BytesMut::from(&alone[..]);
    assert!(codec.decode(&mut buf).unwrap().is_none());
    assert!(buf.is_empty());
}

#[test]
fn round_trip_reports_length_of_body() {
    let mut m = reply();
    m.header.body_length = 1234;
    let bytes = m.encode_to_vec();
    let (d, n) = Message::decode_bytes(&bytes).unwrap();
    assert_eq!(n, bytes.len());
    assert_eq!(d.header.body_length, 9);
    m.header.body_length = 9;
    assert!(same(&d, &m));
}

#[test]
fn codec_try_encode_appends_and_reports() {
    let mut codec = MessageCodec::new();
    let mut buf = BytesMut::from(&[1u8, 2][..]);
    assert_eq!(abus::codec::buffer_len(&buf), 2);
    assert!(codec.try_encode(hello(), &mut buf));
    assert_eq!(abus::codec::buffer_len(&buf), 130);
    assert_eq!(&buf[2..], &HELLO[..]);
}

#[test]
fn message_has_debug_text() {
    let text = format!("{:?}", hello());
    assert!(text.contains("Hello"));
}

#[test]
fn flags_set_operations() {
    let a = Flags::from_bits_retain(0b0101);
    let b = Flags::from_bits_retain(0b0011);
    assert!(a.intersects(b));
    assert!(!a.intersects(Flags::from_bits_retain(0b1010)));
    assert_eq!(a.intersection(b).bits(), 0b0001);
    assert_eq!(a.difference(b).bits(), 0b0100);
    assert_eq!(a.symmetric_difference(b).bits(), 0b0110);
    assert_eq!(a.complement().bits(), 0b1111_1010);
    assert_eq!(Flags::from_bits(0x80).map(|f| f.bits()), Some(0x80));
    assert_eq!(Flags::from_bits_truncate(0xf0).bits(), 0xf0);
    assert!(Flags::all().is_all());
    let mut c = a;
    c.toggle(b);
    assert_eq!(c.bits(), 0b0110);
    c.set(Flags::no_reply_expected(), true);
    assert_eq!(c.bits(), 0b0111);
    c.set(Flags::no_auto_start(), false);
    assert_eq!(c.bits(), 0b0101);
}
