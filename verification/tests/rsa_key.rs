use adb_sync::bignum::to_width;
use adb_sync::error::RustADBError;
use adb_sync::rsa::{
    append_reversed, name_public_key, neg_inverse_u32, pkcs1_encode, ADBRsaKey, KEY_BYTES,
    TOKEN_BYTES,
};
use base64::Engine;

const MODULUS: [u8; 256] = [
    0xbe, 0xe1, 0x50, 0x0f, 0xf7, 0xc7, 0x7e, 0x71, 0x30, 0x44, 0x7f, 0x4e, 0x2a, 0x29, 0xab, 0xca,
    0x4f, 0x7f, 0x91, 0x26, 0xe1, 0x66, 0x73, 0xc0, 0x91, 0x6c, 0xa9, 0xff, 0xa2, 0x75, 0x89, 0xc0,
    0x06, 0x59, 0x01, 0x9b, 0x61, 0x1d, 0xbb, 0x3d, 0xdb, 0xc3, 0x90, 0x58, 0x71, 0xb3, 0x16, 0xfe,
    0xc2, 0x1a, 0x34, 0xb8, 0xd5, 0xd1, 0x74, 0x75, 0x85, 0x01, 0x22, 0x09, 0x97, 0xf3, 0x5d, 0x4a,
    0x7a, 0x7b, 0x92, 0xe6, 0x71, 0xaa, 0xfb, 0x68, 0x14, 0x4d, 0xc0, 0x82, 0x28, 0xae, 0x66, 0x5e,
    0xd5, 0xc2, 0x11, 0x81, 0xdd, 0x29, 0xac, 0x26, 0x04, 0x06, 0x00, 0x08, 0x11, 0x27, 0xb4, 0xb6,
    0x8d, 0x6a, 0xef, 0xe1, 0x0d, 0xb8, 0x7d, 0x1c, 0xc1, 0x74, 0xf5, 0xd8, 0xb2, 0x6e, 0x2e, 0xbb,
    0x97, 0xbe, 0xfa, 0x4a, 0x7f, 0xd1, 0x59, 0xae, 0xa6, 0x78, 0xe0, 0x00, 0x83, 0x6e, 0x8a, 0xa0,
    0xe0, 0xf0, 0x70, 0xb4, 0xa6, 0x22, 0x34, 0xa3, 0x98, 0xad, 0x34, 0x1f, 0x12, 0x9f, 0x71, 0x12,
    0x89, 0x40, 0x46, 0x0e, 0x2c, 0x79, 0x6c, 0xf2, 0xee, 0x4c, 0x64, 0xb7, 0x71, 0x51, 0x18, 0x9b,
    0xb7, 0xbc, 0xd3, 0xaa, 0x7e, 0xe5, 0x37, 0x06, 0x86, 0xf4, 0xa7, 0x19, 0x71, 0x3b, 0x12, 0x44,
    0x78, 0x5b, 0x9b, 0xe1, 0xc2, 0x9e, 0xd0, 0xef, 0xd3, 0xc1, 0x34, 0xe2, 0x56, 0xa6, 0x09, 0x3b,
    0x40, 0xe1, 0x10, 0x05, 0x77, 0x10, 0x61, 0xa6, 0x35, 0x28, 0x52, 0x8e, 0xa8, 0xf8, 0x11, 0xa1,
    0x77, 0xff, 0x51, 0xe2, 0x4d, 0xac, 0xd3, 0xd0, 0x62, 0x26, 0xe1, 0x04, 0x13, 0xd7, 0x04, 0x58,
    0x1d, 0x98, 0xfc, 0xb4, 0x9f, 0xc7, 0xa7, 0x01, 0xdc, 0x64, 0x37, 0x2a, 0x23, 0x7b, 0x53, 0x23,
    0x69, 0xc0, 0x60, 0x04, 0x98, 0xfd, 0x0a, 0x73, 0xd9, 0xc3, 0x54, 0xb6, 0x2e, 0x57, 0x0b, 0x8b,
];
const PRIVATE_EXPONENT: [u8; 256] = [
    0xbb, 0x15, 0xc7, 0x0c, 0xff, 0x84, 0x4e, 0x4f, 0xce, 0x49, 0x34, 0xa5, 0x7d, 0xf9, 0xbd, 0xe0,
    0xda, 0xae, 0x63, 0xac, 0x41, 0xfb, 0xd2, 0xb4, 0x09, 0x55, 0x02, 0x02, 0x06, 0x4f, 0x41, 0xa6,
    0x2e, 0x12, 0x8a, 0xda, 0xaa, 0x03, 0x24, 0x04, 0x6b, 0x23, 0x70, 0x94, 0xdf, 0x4b, 0xf2, 0xdb,
    0xdb, 0x8f, 0x27, 0xe1, 0x89, 0xe0, 0x73, 0x4e, 0xc3, 0xff, 0xea, 0x46, 0x90, 0xe1, 0xfc, 0xac,
    0x05, 0x04, 0x9d, 0x64, 0xb4, 0x40, 0x2b, 0x8d, 0x45, 0x69, 0x37, 0xa7, 0xdb, 0x0b, 0xa4, 0x56,
    0x8b, 0x18, 0x5d, 0x64, 0x75, 0x4a, 0x64, 0xea, 0x15, 0xc3, 0x73, 0xc0, 0x74, 0x60, 0x00, 0x65,
    0x74, 0x92, 0x3d, 0x6e, 0xcd, 0xad, 0xe7, 0x22, 0x8a, 0x12, 0x82, 0xeb, 0xd3, 0x66, 0xde, 0xf3,
    0x0a, 0xb6, 0x2a, 0x47, 0x5e, 0xa3, 0xe8, 0x4c, 0x9f, 0xe9, 0x95, 0x53, 0xab, 0x7e, 0x6a, 0xeb,
    0xb4, 0x65, 0x24, 0x99, 0xde, 0xdd, 0xaa, 0x22, 0xee, 0xa6, 0x56, 0xcc, 0xc4, 0xec, 0x6c, 0x76,
    0x68, 0x1b, 0x80, 0xe0, 0xf4, 0x70, 0xd6, 0x0a, 0x47, 0x49, 0x72, 0x43, 0xc1, 0xdc, 0x7e, 0x28,
    0x14, 0x8b, 0xfb, 0x53, 0x0f, 0x6a, 0xba, 0x5e, 0xff, 0x31, 0x86, 0x0e, 0xcc, 0x52, 0x41, 0x51,
    0xa2, 0xe0, 0x25, 0xaf, 0xbe, 0x6b, 0xea, 0xfa, 0xe6, 0xd9, 0xca, 0x85, 0x7c, 0x5f, 0x3d, 0x02,
    0x55, 0xf2, 0x63, 0x6e, 0xeb, 0xee, 0xee, 0xc9, 0x0e, 0xc3, 0x90, 0xa1, 0x43, 0x3e, 0x45, 0x2e,
    0xe6, 0x64, 0xd5, 0xe1, 0xc8, 0x13, 0x26, 0x53, 0xb1, 0x64, 0xf1, 0x95, 0x6b, 0x0e, 0x37, 0x5c,
    0x92, 0x5b, 0x52, 0x6b, 0x6a, 0xf6, 0xf1, 0x59, 0x0c, 0x7b, 0x3b, 0x50, 0x54, 0xa1, 0x42, 0xd7,
    0x4b, 0xa8, 0xcb, 0xd2, 0xe6, 0xf0, 0xc0, 0x8f, 0xe0, 0x52, 0x93, 0x38, 0x45, 0x6e, 0xe0, 0x91,
];
const PUBLIC_EXPONENT: u32 = 65537;
const TOKEN: [u8; 20] = [
    0x01, 0x02, 0x03, 0x04, 0x05, 0x06, 0x07, 0x08, 0x09, 0x0a, 0x0b, 0x0c, 0x0d, 0x0e, 0x0f, 0x10,
    0x11, 0x12, 0x13, 0x14,
];
const SIGNATURE: [u8; 256] = [
    0x33, 0xfe, 0x1d, 0x67, 0xb5, 0x8e, 0x0f, 0xa5, 0x23, 0x71, 0x82, 0x1d, 0x52, 0xb7, 0xd0, 0xfa,
    0x3b, 0x18, 0x88, 0x29, 0x6d, 0xab, 0x1b, 0x25, 0xbf, 0x52, 0xb4, 0xce, 0x82, 0x7e, 0xfc, 0xfc,
    0x31, 0x52, 0xe6, 0xa9, 0xf5, 0x8d, 0x74, 0xe5, 0x76, 0x47, 0xe5, 0xc9, 0xe1, 0x27, 0xeb, 0xb7,
    0x6d, 0xf3, 0x59, 0x83, 0xf4, 0xa0, 0xe3, 0x70, 0x61, 0xde, 0xcf, 0xdb, 0x4f, 0x2c, 0xf0, 0x50,
    0x0a, 0x27, 0xf1, 0x36, 0xd8, 0xbf, 0x44, 0x8b, 0xf4, 0x6a, 0xcb, 0xd2, 0xc4, 0x9c, 0x0a, 0x32,
    0x79, 0x13, 0x8e, 0xe7, 0xaf, 0x3c, 0xca, 0x64, 0xd3, 0x1f, 0x53, 0xe4, 0x98, 0x85, 0x50, 0xa5,
    0xaa, 0x3d, 0xb2, 0x80, 0xb7, 0xe2, 0x64, 0x9f, 0xde, 0xf8, 0x57, 0x4c, 0x7e, 0x5d, 0xd7, 0x53,
    0xd6, 0xd8, 0xf1, 0x00, 0xd0, 0x17, 0x24, 0xd3, 0x92, 0xae, 0xe4, 0x87, 0x85, 0x35, 0xd5, 0x08,
    0xad, 0xdf, 0x07, 0xd4, 0x21, 0xeb, 0x1c, 0x47, 0xa8, 0xfa, 0xb5, 0x75, 0x3a, 0xf9, 0x17, 0xf7,
    0xfd, 0x0e, 0x0b, 0xaa, 0x6a, 0xcd, 0x8b, 0x81, 0x76, 0xd5, 0x84, 0xcc, 0xa5, 0xeb, 0x98, 0x4c,
    0x63, 0xdf, 0x84, 0x93, 0xd9, 0x7c, 0x2c, 0x83, 0xa5, 0x80, 0x5e, 0x01, 0x70, 0xc3, 0x72, 0xe1,
    0x49, 0x29, 0x97, 0x30, 0x78, 0xc2, 0xfd, 0x76, 0xed, 0x1f, 0xf7, 0x00, 0x6d, 0xd2, 0xf8, 0x8f,
    0x95, 0x63, 0xbc, 0x67, 0xd4, 0xf7, 0xf9, 0xbf, 0x63, 0x5d, 0x53, 0xf3, 0xbf, 0x6b, 0x9f, 0xe4,
    0x53, 0x97, 0x75, 0x87, 0xa8, 0x05, 0xea, 0x5d, 0xe6, 0x2d, 0xd1, 0x75, 0x0c, 0x12, 0x23, 0x75,
    0x24, 0x33, 0x2f, 0x6c, 0xd7, 0xdc, 0x7f, 0x08, 0x42, 0x77, 0x4c, 0x8e, 0xeb, 0xd4, 0x78, 0x5b,
    0x66, 0xdc, 0x37, 0x7d, 0x24, 0xaa, 0x08, 0xa7, 0x91, 0x7a, 0xed, 0x65, 0x76, 0x3b, 0x69, 0xdb,
];
const N0INV: u32 = 0xfbd63bdd;
const PUBLIC_KEY_BASE64: &str = "QAAAAN071vuLC1cutlTD2XMK/ZgEYMBpI1N7Iyo3ZNwBp8eftPyYHVgE1xME4SZi0NOsTeJR/3ehEfiojlIoNaZhEHcFEOFAOwmmVuI0wdPv0J7C4ZtbeEQSO3EZp/SGBjflfqrTvLebGFFxt2RM7vJseSwORkCJEnGfEh80rZijNCKmtHDw4KCKboMA4HimrlnRf0r6vpe7Lm6y2PV0wRx9uA3h72qNtrQnEQgABgQmrCndgRHC1V5mriiCwE0UaPuqceaSe3pKXfOXCSIBhXV00dW4NBrC/hazcViQw9s9ux1hmwFZBsCJdaL/qWyRwHNm4SaRf0/KqykqTn9EMHF+x/cPUOG+T1k0XDIcVro1Toz/83h5b/3ump0Kr5KUe+RV34VrvABhtf+eTIapk0n0suC+MI8c8tsGZ8he6omP4uU1wuT6YqibDfnvXL654qfknlN0hxcN4QY4hQ4aBggK7OgHBlP99eShZ9CW5LI/yQTTMyByryTsbrHwv5BxaqxWiOXp5Co6tQNmxibM2BTk2kMY094BSFEmx/n+42Oz9jbyJZQid5LVpYqIGE9viDMiAuKbhCXOgK/5oI6zODhLZyUdNHvLO2z5eb3uY5Mwb+eh4JX3WAqxLZbiRhYpUgBbupAuYZG0FDiDPAtSr3cBhmCz3Rh8ZHE6dVtgNK31EKsOF+HZIAEAAQA=";

fn key() -> ADBRsaKey {
    ADBRsaKey::new(
        MODULUS.to_vec(),
        PRIVATE_EXPONENT.to_vec(),
        PUBLIC_EXPONENT,
        "host@workstation".to_string(),
    )
    .unwrap()
}

#[test]
fn padded_token_is_256_bytes() {
    let em = pkcs1_encode(&TOKEN);
    assert_eq!(em.len(), KEY_BYTES);
    assert_eq!(TOKEN.len(), TOKEN_BYTES);
    assert_eq!(&em[..2], &[0x00, 0x01]);
    assert!(em[2..220].iter().all(|&b| b == 0xff));
    assert_eq!(em[220], 0x00);
    assert_eq!(
        &em[221..236],
        &[0x30, 0x21, 0x30, 0x09, 0x06, 0x05, 0x2b, 0x0e, 0x03, 0x02, 0x1a, 0x05, 0x00, 0x04, 0x14]
    );
    assert_eq!(&em[236..], &TOKEN);
}

#[test]
fn signature_of_a_token() {
    let signature = key().sign(&TOKEN).unwrap();
    assert_eq!(signature.len(), 256);
    assert_eq!(signature, SIGNATURE.to_vec());
}

#[test]
fn signature_differs_with_the_token() {
    let mut other = TOKEN;
    other[0] ^= 1;
    let signature = key().sign(&other).unwrap();
    assert_eq!(signature.len(), 256);
    assert_ne!(signature, SIGNATURE.to_vec());
}

#[test]
fn token_of_another_length_is_refused() {
    assert_eq!(key().sign(&TOKEN[..19]), Err(RustADBError::ConversionError));
    assert_eq!(key().sign(&[0u8; 21]), Err(RustADBError::ConversionError));
    assert_eq!(key().sign(&[]), Err(RustADBError::ConversionError));
}

#[test]
fn public_key_is_base64_space_user() {
    let text = key().android_pubkey_encode().unwrap();
    assert_eq!(text, format!("{} host@workstation", PUBLIC_KEY_BASE64));
    assert_eq!(PUBLIC_KEY_BASE64.len(), 700);
}

#[test]
fn public_key_structure_has_524_bytes() {
    let blob = key().android_pubkey_blob();
    assert_eq!(blob.len(), 524);
    assert_eq!(&blob[0..4], &[64, 0, 0, 0]);
    assert_eq!(&blob[4..8], &N0INV.to_le_bytes());
    let mut modulus = MODULUS.to_vec();
    modulus.reverse();
    assert_eq!(&blob[8..264], &modulus[..]);
    assert_eq!(&blob[520..524], &[0x01, 0x00, 0x01, 0x00]);
    assert_eq!(base64::engine::general_purpose::STANDARD.decode(PUBLIC_KEY_BASE64).unwrap(), blob);
}

#[test]
fn the_user_stands_behind_the_key() {
    assert_eq!(name_public_key("QUJD".to_string(), "host@workstation"), "QUJD host@workstation");
    assert_eq!(name_public_key(String::new(), ""), " ");
}

#[test]
fn modulus_must_have_256_bytes_a_high_bit_and_be_odd() {
    let user = || "u".to_string();
    assert!(ADBRsaKey::new(MODULUS.to_vec(), vec![1], 3, user()).is_ok());
    assert_eq!(
        ADBRsaKey::new(MODULUS[1..].to_vec(), vec![1], 3, user()),
        Err(RustADBError::ConversionError)
    );
    let mut low = MODULUS.to_vec();
    low[0] = 0x7f;
    assert_eq!(ADBRsaKey::new(low, vec![1], 3, user()), Err(RustADBError::ConversionError));
    let mut even = MODULUS.to_vec();
    even[255] &= 0xfe;
    assert_eq!(ADBRsaKey::new(even, vec![1], 3, user()), Err(RustADBError::ConversionError));
    assert_eq!(ADBRsaKey::new(vec![], vec![1], 3, user()), Err(RustADBError::ConversionError));
}

#[test]
fn negated_inverse_of_the_lowest_word() {
    assert_eq!(neg_inverse_u32(1), u32::MAX);
    assert_eq!(neg_inverse_u32(3), 0x5555_5555);
    assert_eq!(neg_inverse_u32(u32::MAX), 1);
    let n0 = u32::from_be_bytes([MODULUS[252], MODULUS[253], MODULUS[254], MODULUS[255]]);
    assert_eq!(neg_inverse_u32(n0), N0INV);
    for n0 in [1u32, 3, 5, 7, 0x2e57_0b8b, 0x8000_0001, 0xffff_fffd] {
        let inverse = neg_inverse_u32(n0);
        assert_eq!(n0.wrapping_mul(inverse).wrapping_add(1), 0);
    }
}

#[test]
fn numbers_are_written_in_a_fixed_width() {
    assert_eq!(to_width(&vec![1, 2], 4), vec![0, 0, 1, 2]);
    assert_eq!(to_width(&vec![0, 0, 1, 2], 2), vec![1, 2]);
    assert_eq!(to_width(&vec![], 3), vec![0, 0, 0]);
    assert_eq!(to_width(&vec![5], 1), vec![5]);
    assert_eq!(to_width(&vec![0, 0], 0), Vec::<u8>::new());
}

#[test]
fn bytes_are_appended_in_reverse() {
    let mut out = vec![9];
    append_reversed(&mut out, &vec![1, 2, 3]);
    assert_eq!(out, vec![9, 3, 2, 1]);
    append_reversed(&mut out, &vec![]);
    assert_eq!(out, vec![9, 3, 2, 1]);
}
