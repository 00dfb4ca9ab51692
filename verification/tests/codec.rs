use adb_sync::error::RustADBError;
use adb_sync::message::{
    checksum, ADBTransportMessage, ADBTransportMessageHeader, MessageCommand, A_VERSION, MAX_PAYLOAD,
};
use adb_sync::wire::{get_u32_le, put_u32_le};

const COMMANDS: [MessageCommand; 7] = [
    MessageCommand::Cnxn,
    MessageCommand::Clse,
    MessageCommand::Auth,
    MessageCommand::Open,
    MessageCommand::Write,
    MessageCommand::Okay,
    MessageCommand::Sync,
];

#[test]
fn encode_writes_header_then_payload() {
    let message = ADBTransportMessage::new(MessageCommand::Okay, 1, 2, &[1, 2, 3]);
    let bytes = message.encode();
    assert_eq!(bytes.len(), 27);
    assert_eq!(&bytes[0..4], b"OKAY");
    assert_eq!(&bytes[4..8], &[1, 0, 0, 0]);
    assert_eq!(&bytes[8..12], &[2, 0, 0, 0]);
    assert_eq!(&bytes[12..16], &[3, 0, 0, 0]);
    assert_eq!(&bytes[16..20], &[6, 0, 0, 0]);
    assert_eq!(&bytes[20..24], &[!b'O', !b'K', !b'A', !b'Y']);
    assert_eq!(&bytes[24..], &[1, 2, 3]);
}

#[test]
fn command_codes_are_the_ascii_names() {
    assert_eq!(MessageCommand::Cnxn.to_u32(), 0x4e584e43);
    assert_eq!(MessageCommand::Auth.to_u32(), 0x48545541);
    assert_eq!(MessageCommand::Open.to_u32(), 0x4e45504f);
    assert_eq!(MessageCommand::Okay.to_u32(), 0x59414b4f);
    assert_eq!(MessageCommand::Clse.to_u32(), 0x45534c43);
    assert_eq!(MessageCommand::Write.to_u32(), 0x45545257);
    assert_eq!(MessageCommand::Sync.to_u32(), 0x434e5953);
    for command in COMMANDS {
        assert_eq!(MessageCommand::from_u32(command.to_u32()), Some(command));
        assert_eq!(command.to_u32().to_le_bytes().len(), 4);
    }
    assert_eq!(MessageCommand::from_u32(0), None);
    assert_eq!(MessageCommand::from_u32(0x534c5453), None);
}

#[test]
fn framing_round_trip_for_every_command() {
    let payloads: Vec<Vec<u8>> = vec![
        vec![],
        vec![0],
        vec![255; 3],
        b"host::\0".to_vec(),
        (0..=255u8).collect(),
        vec![7; 70_000],
    ];
    for command in COMMANDS {
        for payload in &payloads {
            for (arg0, arg1) in [(0u32, 0u32), (1, 2), (u32::MAX, 0x01000001)] {
                let message = ADBTransportMessage::new(command, arg0, arg1, payload);
                let decoded = ADBTransportMessage::decode(&message.encode()).unwrap();
                assert_eq!(decoded, message);
                assert_eq!(decoded.header().command(), command);
                assert_eq!(decoded.header().arg0(), arg0);
                assert_eq!(decoded.header().arg1(), arg1);
                assert_eq!(decoded.payload(), payload);
                assert_eq!(decoded.header().magic(), !command.to_u32());
                assert_eq!(decoded.header().magic(), command.to_u32() ^ 0xffff_ffff);
                let sum: u32 = payload.iter().map(|&b| b as u32).sum();
                assert_eq!(decoded.header().data_crc32(), sum);
                assert_eq!(decoded.header().data_length() as usize, payload.len());
            }
        }
    }
}

#[test]
fn largest_payload_round_trips() {
    let payload = vec![0xffu8; MAX_PAYLOAD as usize];
    let message = ADBTransportMessage::new(MessageCommand::Write, 1, 2, &payload);
    assert_eq!(message.header().data_crc32(), 255 * 262144);
    let decoded = ADBTransportMessage::decode(&message.encode()).unwrap();
    assert_eq!(decoded.into_payload(), payload);
}

#[test]
fn flipping_a_payload_byte_is_a_bad_checksum() {
    let payload = vec![10u8, 20, 30, 40, 50];
    for command in COMMANDS {
        if command == MessageCommand::Auth {
            continue;
        }
        let bytes = ADBTransportMessage::new(command, 3, 4, &payload).encode();
        for at in 0..payload.len() {
            for replacement in [0u8, 1, 9, 11, 255] {
                let mut flipped = bytes.clone();
                flipped[24 + at] = replacement;
                assert_eq!(ADBTransportMessage::decode(&flipped), Err(RustADBError::BadChecksum));
            }
        }
    }
}

#[test]
fn auth_payload_is_not_held_to_its_checksum() {
    let bytes = ADBTransportMessage::new(MessageCommand::Auth, 1, 0, &[1, 2, 3]).encode();
    let mut flipped = bytes.clone();
    flipped[25] = 200;
    let decoded = ADBTransportMessage::decode(&flipped).unwrap();
    assert_eq!(decoded.payload(), &vec![1u8, 200, 3]);
    assert_eq!(decoded.header().data_crc32(), 6);
}

#[test]
fn wrong_magic_is_an_invalid_header() {
    let mut bytes = ADBTransportMessage::new(MessageCommand::Okay, 1, 2, &[]).encode();
    bytes[20] ^= 1;
    assert_eq!(ADBTransportMessage::decode(&bytes), Err(RustADBError::InvalidHeader));
    assert_eq!(ADBTransportMessageHeader::decode(&bytes), Err(RustADBError::InvalidHeader));
}

#[test]
fn unknown_command_is_an_invalid_header() {
    let mut bytes = Vec::new();
    put_u32_le(&mut bytes, 0x534c5453);
    put_u32_le(&mut bytes, 0);
    put_u32_le(&mut bytes, 0);
    put_u32_le(&mut bytes, 0);
    put_u32_le(&mut bytes, 0);
    put_u32_le(&mut bytes, !0x534c5453u32);
    assert_eq!(ADBTransportMessageHeader::decode(&bytes), Err(RustADBError::InvalidHeader));
}

#[test]
fn payload_above_the_limit_is_an_invalid_header() {
    let mut bytes = Vec::new();
    put_u32_le(&mut bytes, MessageCommand::Write.to_u32());
    put_u32_le(&mut bytes, 0);
    put_u32_le(&mut bytes, 0);
    put_u32_le(&mut bytes, MAX_PAYLOAD + 1);
    put_u32_le(&mut bytes, 0);
    put_u32_le(&mut bytes, !MessageCommand::Write.to_u32());
    assert_eq!(ADBTransportMessageHeader::decode(&bytes), Err(RustADBError::InvalidHeader));
}

#[test]
fn short_or_long_input_is_a_conversion_error() {
    let bytes = ADBTransportMessage::new(MessageCommand::Write, 1, 2, &[1, 2, 3]).encode();
    assert_eq!(ADBTransportMessage::decode(&[]), Err(RustADBError::ConversionError));
    assert_eq!(ADBTransportMessage::decode(&bytes[..23]), Err(RustADBError::ConversionError));
    assert_eq!(ADBTransportMessage::decode(&bytes[..26]), Err(RustADBError::ConversionError));
    let mut longer = bytes.clone();
    longer.push(0);
    assert_eq!(ADBTransportMessage::decode(&longer), Err(RustADBError::ConversionError));
    assert_eq!(ADBTransportMessageHeader::decode(&bytes[..23]), Err(RustADBError::ConversionError));
    assert_eq!(ADBTransportMessageHeader::decode(&bytes[..25]), Err(RustADBError::ConversionError));
}

#[test]
fn header_and_payload_are_put_together() {
    let message = ADBTransportMessage::new(MessageCommand::Write, 5, 6, &[9, 9]);
    let header = *message.header();
    assert_eq!(
        ADBTransportMessage::from_header_and_payload(header, vec![9, 9]),
        Ok(message.clone())
    );
    assert_eq!(
        ADBTransportMessage::from_header_and_payload(header, vec![9]),
        Err(RustADBError::ConversionError)
    );
    assert_eq!(
        ADBTransportMessage::from_header_and_payload(header, vec![9, 8]),
        Err(RustADBError::BadChecksum)
    );
    assert_eq!(message.duplicate(), message);
    assert_eq!(message.clone(), message);
    let mut wrong_magic = header;
    wrong_magic.magic = 0;
    assert_eq!(
        ADBTransportMessage::from_header_and_payload(wrong_magic, vec![9, 9]),
        Err(RustADBError::InvalidHeader)
    );
    let mut too_long = header;
    too_long.data_length = MAX_PAYLOAD + 1;
    assert_eq!(
        ADBTransportMessage::from_header_and_payload(too_long, vec![9, 9]),
        Err(RustADBError::InvalidHeader)
    );
}

#[test]
fn header_encodes_to_24_bytes() {
    let header = ADBTransportMessageHeader::new(MessageCommand::Cnxn, A_VERSION, MAX_PAYLOAD, b"host::\0");
    let bytes = header.encode();
    assert_eq!(bytes.len(), 24);
    assert_eq!(&bytes[0..4], b"CNXN");
    assert_eq!(&bytes[4..8], &[0x01, 0x00, 0x00, 0x01]);
    assert_eq!(&bytes[8..12], &[0x00, 0x00, 0x04, 0x00]);
    assert_eq!(&bytes[12..16], &[7, 0, 0, 0]);
    assert_eq!(ADBTransportMessageHeader::decode(&bytes), Ok(header));
}

#[test]
fn checksum_is_the_sum_of_the_bytes() {
    assert_eq!(checksum(&[]), 0);
    assert_eq!(checksum(&[1, 2, 3]), 6);
    assert_eq!(checksum(&[255, 255]), 510);
}

#[test]
fn little_endian_words() {
    let mut out = vec![0xaa];
    put_u32_le(&mut out, 0x0403_0201);
    assert_eq!(out, vec![0xaa, 1, 2, 3, 4]);
    assert_eq!(get_u32_le(&out, 1), 0x0403_0201);
    put_u32_le(&mut out, u32::MAX);
    assert_eq!(get_u32_le(&out, 5), u32::MAX);
}
