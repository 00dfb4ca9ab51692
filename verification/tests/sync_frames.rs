use adb_sync::error::RustADBError;
use adb_sync::sync::{
    decode_fail_message, decode_send_reply, decode_stat_reply, AdbStatResponse, MessageSubcommand,
    SubcommandWithArg, BUFFER_SIZE,
};

fn frame(id: &[u8; 4], words: &[u32], tail: &[u8]) -> Vec<u8> {
    let mut bytes = id.to_vec();
    for word in words {
        bytes.extend_from_slice(&word.to_le_bytes());
    }
    bytes.extend_from_slice(tail);
    bytes
}

#[test]
fn frame_identifiers_are_the_ascii_names() {
    assert_eq!(MessageSubcommand::Stat.to_u32().to_le_bytes(), *b"STAT");
    assert_eq!(MessageSubcommand::Send.to_u32().to_le_bytes(), *b"SEND");
    assert_eq!(MessageSubcommand::Recv.to_u32().to_le_bytes(), *b"RECV");
    assert_eq!(MessageSubcommand::Quit.to_u32().to_le_bytes(), *b"QUIT");
    assert_eq!(MessageSubcommand::Fail.to_u32().to_le_bytes(), *b"FAIL");
    assert_eq!(MessageSubcommand::Done.to_u32().to_le_bytes(), *b"DONE");
    assert_eq!(MessageSubcommand::Data.to_u32().to_le_bytes(), *b"DATA");
    assert_eq!(MessageSubcommand::List.to_u32().to_le_bytes(), *b"LIST");
    assert_eq!(MessageSubcommand::Okay.to_u32().to_le_bytes(), *b"OKAY");
    assert_eq!(BUFFER_SIZE, 64 * 1024);
}

#[test]
fn frame_header_is_identifier_then_argument() {
    let header = MessageSubcommand::Stat.with_arg(0x0102_0304);
    assert_eq!(header, SubcommandWithArg { subcommand: MessageSubcommand::Stat, arg: 0x0102_0304 });
    assert_eq!(header.encode().unwrap(), vec![b'S', b'T', b'A', b'T', 4, 3, 2, 1]);
    assert_eq!(
        MessageSubcommand::Quit.with_arg(0).encode().unwrap(),
        vec![b'Q', b'U', b'I', b'T', 0, 0, 0, 0]
    );
    assert_eq!(
        MessageSubcommand::Data.with_arg(65536).encode().unwrap(),
        vec![b'D', b'A', b'T', b'A', 0, 0, 1, 0]
    );
}

#[test]
fn stat_reply_holds_mode_size_and_time() {
    let payload = frame(b"STAT", &[0x81a4, 100, 1_700_000_000], &[]);
    assert_eq!(
        decode_stat_reply(&payload),
        Ok(AdbStatResponse { file_perm: 0x81a4, file_size: 100, mod_time: 1_700_000_000 })
    );
    let longer = frame(b"STAT", &[1, 2, 3], &[9, 9, 9]);
    assert_eq!(
        decode_stat_reply(&longer),
        Ok(AdbStatResponse { file_perm: 1, file_size: 2, mod_time: 3 })
    );
}

#[test]
fn stat_reply_of_a_missing_path_has_mode_zero() {
    let payload = frame(b"STAT", &[0, 0, 0], &[]);
    assert_eq!(
        decode_stat_reply(&payload),
        Ok(AdbStatResponse { file_perm: 0, file_size: 0, mod_time: 0 })
    );
}

#[test]
fn short_or_foreign_stat_reply_is_a_conversion_error() {
    assert_eq!(decode_stat_reply(&[]), Err(RustADBError::ConversionError));
    assert_eq!(decode_stat_reply(b"STA"), Err(RustADBError::ConversionError));
    assert_eq!(decode_stat_reply(b"STAT"), Err(RustADBError::ConversionError));
    assert_eq!(decode_stat_reply(&frame(b"STAT", &[1, 2], &[0, 0, 0])), Err(RustADBError::ConversionError));
    assert_eq!(decode_stat_reply(&frame(b"DATA", &[1, 2, 3], &[])), Err(RustADBError::ConversionError));
}

#[test]
fn fail_frame_carries_the_complaint() {
    let payload = frame(b"FAIL", &[12], b"No such file");
    assert_eq!(
        decode_stat_reply(&payload),
        Err(RustADBError::ADBRequestFailed("No such file".to_string()))
    );
    assert_eq!(
        decode_send_reply(&payload),
        Err(RustADBError::ADBRequestFailed("No such file".to_string()))
    );
    assert_eq!(decode_fail_message(&payload), "No such file");
}

#[test]
fn fail_message_ends_where_the_argument_or_the_payload_ends() {
    assert_eq!(decode_fail_message(&frame(b"FAIL", &[2], b"abcdef")), "ab");
    assert_eq!(decode_fail_message(&frame(b"FAIL", &[600], b"abc")), "abc");
    assert_eq!(decode_fail_message(&frame(b"FAIL", &[0], b"abc")), "");
    assert_eq!(decode_fail_message(b"FAIL"), "");
    assert_eq!(decode_fail_message(&frame(b"FAIL", &[2], &[0xff, b'a'])), "\u{fffd}a");
}

#[test]
fn send_reply_is_okay_or_fail() {
    assert_eq!(decode_send_reply(&frame(b"OKAY", &[0], &[])), Ok(()));
    assert_eq!(decode_send_reply(b"OKAY"), Ok(()));
    assert_eq!(decode_send_reply(b"OKA"), Err(RustADBError::ConversionError));
    assert_eq!(decode_send_reply(&frame(b"STAT", &[0], &[])), Err(RustADBError::ConversionError));
    assert_eq!(
        decode_send_reply(&frame(b"FAIL", &[4], b"full")),
        Err(RustADBError::ADBRequestFailed("full".to_string()))
    );
}
