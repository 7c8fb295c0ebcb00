//! End-to-end unlock tests against a database assembled in memory and
//! encrypted with the real ciphers.

use cbc::cipher::block_padding::NoPadding;
use cbc::cipher::{BlockModeEncrypt, KeyInit, KeyIvInit};
use hmac::Mac;

use pwsafe3::crypto::{sha256, stretch};
use pwsafe3::item::{Data, Kind};
use pwsafe3::keychain::V3;
use pwsafe3::UnlockError;

const PASSWORD: &str = "bogus12345";
const ITERATIONS: u32 = 100;

fn ecb_encrypt(block: &[u8], key: &[u8]) -> Vec<u8> {
    let mut buf = block.to_vec();
    let n = buf.len();
    let c = ecb::Encryptor::<twofish::Twofish>::new_from_slice(key).unwrap();
    c.encrypt_padded::<NoPadding>(&mut buf, n).unwrap();
    buf
}

fn cbc_encrypt(data: &mut Vec<u8>, key: &[u8], iv: &[u8]) {
    let n = data.len();
    let c = cbc::Encryptor::<twofish::Twofish>::new_from_slices(key, iv).unwrap();
    c.encrypt_padded::<NoPadding>(&mut data[..], n).unwrap();
}

fn hmac_sha256(key: &[u8], data: &[u8]) -> Vec<u8> {
    let mut m = hmac::Hmac::<sha2::Sha256>::new_from_slice(key).unwrap();
    m.update(data);
    m.finalize().into_bytes().to_vec()
}

/// Appends one TLV field: length prefix, tag, value, zero padding to the
/// next 16-byte boundary.  Also appends the value bytes to `mac_input`.
fn push_field(body: &mut Vec<u8>, mac_input: &mut Vec<u8>, tag: u8, value: &[u8]) {
    body.extend_from_slice(&(value.len() as u32).to_le_bytes());
    body.push(tag);
    body.extend_from_slice(value);
    let used = (5 + value.len()) % 16;
    if used != 0 {
        body.extend_from_slice(&vec![0u8; 16 - used]);
    }
    mac_input.extend_from_slice(value);
}

fn push_end(body: &mut Vec<u8>, mac_input: &mut Vec<u8>) {
    push_field(body, mac_input, 0xff, &[]);
}

/// Assembles a complete database file from entry records given as
/// (tag, value bytes) lists.
fn build_db(password: &str, records: &[Vec<(u8, Vec<u8>)>]) -> Vec<u8> {
    let salt = [7u8; 32];
    let stretched = stretch(password, &salt, ITERATIONS);
    let verification = sha256(&stretched);
    let key_k = [0x11u8; 32];
    let key_l = [0x22u8; 32];
    let b12 = ecb_encrypt(&key_k, &stretched);
    let b34 = ecb_encrypt(&key_l, &stretched);
    let iv = [0x33u8; 16];

    let mut body: Vec<u8> = Vec::new();
    let mut mac_input: Vec<u8> = Vec::new();
    // header record: a version field, then the end field
    push_field(&mut body, &mut mac_input, 0x00, &[0x0b, 0x03]);
    push_end(&mut body, &mut mac_input);
    for rec in records {
        for (tag, value) in rec {
            push_field(&mut body, &mut mac_input, *tag, value);
        }
        push_end(&mut body, &mut mac_input);
    }
    cbc_encrypt(&mut body, &key_k, &iv);
    let tag = hmac_sha256(&key_l, &mac_input);

    let mut file: Vec<u8> = Vec::new();
    file.extend_from_slice(b"PWS3");
    file.extend_from_slice(&salt);
    file.extend_from_slice(&ITERATIONS.to_le_bytes());
    file.extend_from_slice(&verification);
    file.extend_from_slice(&b12);
    file.extend_from_slice(&b34);
    file.extend_from_slice(&iv);
    file.extend_from_slice(&body);
    file.extend_from_slice(b"PWS3-EOFPWS3-EOF");
    file.extend_from_slice(&tag);
    file
}

fn text(s: &str) -> Vec<u8> {
    s.as_bytes().to_vec()
}

fn int_bytes(x: u32) -> Vec<u8> {
    x.to_le_bytes().to_vec()
}

fn short(x: u16) -> Vec<u8> {
    x.to_le_bytes().to_vec()
}

/// The nine reference entries, as raw (tag, value) fields in file order.
fn reference_records() -> Vec<Vec<(u8, Vec<u8>)>> {
    vec![
        vec![
            (0x07, int_bytes(1339168618)),
            (0x0c, int_bytes(1339168764)),
            (0x03, text("Test eight")),
            (0x04, text("user8")),
            (0x06, text("my password")),
            (0x05, text("shift double click action set = run command")),
            (0x0f, text("1ff00")),
            (0x17, short(8)),
        ],
        vec![
            (0x07, int_bytes(1311392620)),
            (0x09, int_bytes(1311400802)),
            (0x0a, int_bytes(1327636140)),
            (0x0c, int_bytes(1311907753)),
            (0x03, text("Test Four")),
            (0x04, text("user4")),
            (0x06, text("pass4")),
            (0x0f, text("1ff00")),
            (0x10, text("f00000e001001001001")),
        ],
        vec![
            (0x07, int_bytes(1311386977)),
            (0x09, int_bytes(1311400799)),
            (0x0a, int_bytes(1311994130)),
            (0x0c, int_bytes(1311907737)),
            (0x02, text("Test")),
            (0x03, text("Test One")),
            (0x04, text("user2")),
            (0x06, text("password2")),
            (0x0f, text("1ff00")),
            (0x0e, text("fdas")),
            (0x12, text("asdf")),
        ],
        vec![
            (0x07, int_bytes(1339168618)),
            (0x0c, int_bytes(1339168719)),
            (0x03, text("Test seven")),
            (0x04, text("user7")),
            (0x06, text("my password")),
            (0x0f, text("1ff00")),
            (0x10, text("f00000c001001001001")),
            (0x16, text("+_-#$%")),
            (0x05, text("Symbols set for password generation")),
        ],
        vec![
            (0x07, int_bytes(1311386990)),
            (0x09, int_bytes(1311400798)),
            (0x0c, int_bytes(1311907761)),
            (0x03, text("Test Two")),
            (0x04, text("user3")),
            (0x06, text("pass3")),
            (0x0f, text("1ff00")),
            (0x10, text("080000c001001001001")),
        ],
        vec![
            (0x07, int_bytes(1339362429)),
            (0x02, text("Test")),
            (0x03, text("Test Nine")),
            (0x04, text("user9")),
            (0x06, text("DoubleClickActionTest")),
            (0x0f, text("1ff00")),
            (0x13, short(7)),
        ],
        vec![
            (0x07, int_bytes(1339168618)),
            (0x0c, int_bytes(1339168666)),
            (0x03, text("Test six")),
            (0x04, text("user6")),
            (0x06, text("my password")),
            (0x0f, text("1ff00")),
            (0x05, text("protected entry")),
            (0x15, vec![49]),
        ],
        vec![
            (0x07, int_bytes(1311386913)),
            (0x09, int_bytes(1311400800)),
            (0x0c, int_bytes(1311907724)),
            (0x02, text("Test")),
            (0x03, text("Test One")),
            (0x04, text("user1")),
            (0x06, text("password1")),
            (0x0f, text("1ff00")),
            (0x10, text("b20000b001001001001")),
        ],
        vec![
            (0x07, int_bytes(1339168618)),
            (0x03, text("Test Five")),
            (0x04, text("user5")),
            (0x06, text("my password")),
            (0x0f, text("1ff00")),
            (0x05, text("email address test")),
            (0x14, text("email@bogus.com")),
        ],
    ]
}

/// The decoded fields each reference entry must hold.
fn expected_items() -> Vec<Vec<(Kind, Data)>> {
    vec![
        vec![
            (Kind::CreateTime, Data::Int(1339168618)),
            (Kind::ModifyTime, Data::Int(1339168764)),
            (Kind::Title, Data::Text("Test eight".to_string())),
            (Kind::Username, Data::Text("user8".to_string())),
            (Kind::Password, Data::Text("my password".to_string())),
            (
                Kind::Notes,
                Data::Text("shift double click action set = run command".to_string()),
            ),
            (Kind::PasswordHistory, Data::Text("1ff00".to_string())),
            (Kind::SClickAction, Data::Short(8)),
        ],
        vec![
            (Kind::CreateTime, Data::Int(1311392620)),
            (Kind::AccessTime, Data::Int(1311400802)),
            (Kind::ExpiryTime, Data::Int(1327636140)),
            (Kind::ModifyTime, Data::Int(1311907753)),
            (Kind::Title, Data::Text("Test Four".to_string())),
            (Kind::Username, Data::Text("user4".to_string())),
            (Kind::Password, Data::Text("pass4".to_string())),
            (Kind::PasswordHistory, Data::Text("1ff00".to_string())),
            (Kind::PasswordPolicy, Data::Text("f00000e001001001001".to_string())),
        ],
        vec![
            (Kind::CreateTime, Data::Int(1311386977)),
            (Kind::AccessTime, Data::Int(1311400799)),
            (Kind::ExpiryTime, Data::Int(1311994130)),
            (Kind::ModifyTime, Data::Int(1311907737)),
            (Kind::Group, Data::Text("Test".to_string())),
            (Kind::Title, Data::Text("Test One".to_string())),
            (Kind::Username, Data::Text("user2".to_string())),
            (Kind::Password, Data::Text("password2".to_string())),
            (Kind::PasswordHistory, Data::Text("1ff00".to_string())),
            (Kind::Autotype, Data::Text("fdas".to_string())),
            (Kind::RunCommand, Data::Text("asdf".to_string())),
        ],
        vec![
            (Kind::CreateTime, Data::Int(1339168618)),
            (Kind::ModifyTime, Data::Int(1339168719)),
            (Kind::Title, Data::Text("Test seven".to_string())),
            (Kind::Username, Data::Text("user7".to_string())),
            (Kind::Password, Data::Text("my password".to_string())),
            (Kind::PasswordHistory, Data::Text("1ff00".to_string())),
            (Kind::PasswordPolicy, Data::Text("f00000c001001001001".to_string())),
            (Kind::PasswordSymbols, Data::Text("+_-#$%".to_string())),
            (Kind::Notes, Data::Text("Symbols set for password generation".to_string())),
        ],
        vec![
            (Kind::CreateTime, Data::Int(1311386990)),
            (Kind::AccessTime, Data::Int(1311400798)),
            (Kind::ModifyTime, Data::Int(1311907761)),
            (Kind::Title, Data::Text("Test Two".to_string())),
            (Kind::Username, Data::Text("user3".to_string())),
            (Kind::Password, Data::Text("pass3".to_string())),
            (Kind::PasswordHistory, Data::Text("1ff00".to_string())),
            (Kind::PasswordPolicy, Data::Text("080000c001001001001".to_string())),
        ],
        vec![
            (Kind::CreateTime, Data::Int(1339362429)),
            (Kind::Group, Data::Text("Test".to_string())),
            (Kind::Title, Data::Text("Test Nine".to_string())),
            (Kind::Username, Data::Text("user9".to_string())),
            (Kind::Password, Data::Text("DoubleClickActionTest".to_string())),
            (Kind::PasswordHistory, Data::Text("1ff00".to_string())),
            (Kind::DClickAction, Data::Short(7)),
        ],
        vec![
            (Kind::CreateTime, Data::Int(1339168618)),
            (Kind::ModifyTime, Data::Int(1339168666)),
            (Kind::Title, Data::Text("Test six".to_string())),
            (Kind::Username, Data::Text("user6".to_string())),
            (Kind::Password, Data::Text("my password".to_string())),
            (Kind::PasswordHistory, Data::Text("1ff00".to_string())),
            (Kind::Notes, Data::Text("protected entry".to_string())),
            (Kind::Protected, Data::Byte(49)),
        ],
        vec![
            (Kind::CreateTime, Data::Int(1311386913)),
            (Kind::AccessTime, Data::Int(1311400800)),
            (Kind::ModifyTime, Data::Int(1311907724)),
            (Kind::Group, Data::Text("Test".to_string())),
            (Kind::Title, Data::Text("Test One".to_string())),
            (Kind::Username, Data::Text("user1".to_string())),
            (Kind::Password, Data::Text("password1".to_string())),
            (Kind::PasswordHistory, Data::Text("1ff00".to_string())),
            (Kind::PasswordPolicy, Data::Text("b20000b001001001001".to_string())),
        ],
        vec![
            (Kind::CreateTime, Data::Int(1339168618)),
            (Kind::Title, Data::Text("Test Five".to_string())),
            (Kind::Username, Data::Text("user5".to_string())),
            (Kind::Password, Data::Text("my password".to_string())),
            (Kind::PasswordHistory, Data::Text("1ff00".to_string())),
            (Kind::Notes, Data::Text("email address test".to_string())),
            (Kind::Email, Data::Text("email@bogus.com".to_string())),
        ],
    ]
}

#[test]
fn invalid_db_password() {
    let file = build_db(PASSWORD, &reference_records());
    let err = V3::new(&file, "invalid_password");
    assert_eq!(err.is_ok(), false);
    assert_eq!(err.unwrap_err(), UnlockError::AuthenticationError);
}

#[test]
fn valid_db_password() {
    let file = build_db(PASSWORD, &reference_records());
    let err = V3::new(&file, PASSWORD);
    assert_eq!(err.is_ok(), true);
}

#[test]
fn valid_db_size() {
    let file = build_db(PASSWORD, &reference_records());
    let kc = V3::new(&file, PASSWORD).unwrap();
    assert_eq!(kc.len(), 9);
}

#[test]
fn valid_db_contents() {
    let file = build_db(PASSWORD, &reference_records());
    let kc = V3::new(&file, PASSWORD).unwrap();

    let expected = expected_items();
    let mut z = 0;
    for i in kc.iter() {
        for (k, v) in expected[z].iter() {
            assert_eq!(i.get(*k), Some(v));
        }
        z = z + 1;
    }
    assert_eq!(kc.len(), 9);
}

#[test]
fn display_names_in_file_order() {
    let file = build_db(PASSWORD, &reference_records());
    let kc = V3::new(&file, PASSWORD).unwrap();
    let names: Vec<String> = kc.each().into_iter().map(|p| p.0).collect();
    assert_eq!(
        names,
        vec![
            "Test eight",
            "Test Four",
            "Test.Test One",
            "Test seven",
            "Test Two",
            "Test.Test Nine",
            "Test six",
            "Test.Test One",
            "Test Five",
        ]
    );
}

#[test]
fn unlock_twice_is_identical() {
    let file = build_db(PASSWORD, &reference_records());
    let a = V3::new(&file, PASSWORD).unwrap();
    let b = V3::new(&file, PASSWORD).unwrap();
    assert_eq!(a.len(), b.len());
    let pa = a.each();
    let pb = b.each();
    for (x, y) in pa.iter().zip(pb.iter()) {
        assert_eq!(x.0, y.0);
    }
    for (x, y) in a.iter().iter().zip(b.iter().iter()) {
        for k in [Kind::Title, Kind::Username, Kind::Password, Kind::Notes, Kind::Group] {
            assert_eq!(x.get(k), y.get(k));
        }
    }
}

#[test]
fn tampered_body_fails_authentication() {
    // one entry whose notes value spans several cipher blocks, so that a
    // flipped ciphertext byte garbles value bytes only and parsing still
    // succeeds: the failure must come from the integrity check
    let records = vec![vec![
        (0x03, text("t")),
        (0x05, vec![b'n'; 64]),
    ]];
    let mut file = build_db(PASSWORD, &records);
    // plaintext layout: header 32 bytes, title field 16 bytes, notes field
    // starting at 48; byte 80 of the body is in the middle of the notes value
    file[152 + 80] ^= 0x01;
    let err = V3::new(&file, PASSWORD);
    assert_eq!(err.unwrap_err(), UnlockError::AuthenticationError);
}

#[test]
fn truncated_record_is_parse_error() {
    // a body whose entry record never sees an End field: the stream ends
    // after one complete title field
    let salt = [7u8; 32];
    let stretched = stretch(PASSWORD, &salt, ITERATIONS);
    let verification = sha256(&stretched);
    let key_k = [0x11u8; 32];
    let key_l = [0x22u8; 32];
    let b12 = ecb_encrypt(&key_k, &stretched);
    let b34 = ecb_encrypt(&key_l, &stretched);
    let iv = [0x33u8; 16];
    let mut body: Vec<u8> = Vec::new();
    let mut mac_input: Vec<u8> = Vec::new();
    push_field(&mut body, &mut mac_input, 0x00, &[0x0b, 0x03]);
    push_end(&mut body, &mut mac_input);
    push_field(&mut body, &mut mac_input, 0x03, b"title");
    cbc_encrypt(&mut body, &key_k, &iv);
    let tag = hmac_sha256(&key_l, &mac_input);
    let mut file: Vec<u8> = Vec::new();
    file.extend_from_slice(b"PWS3");
    file.extend_from_slice(&salt);
    file.extend_from_slice(&ITERATIONS.to_le_bytes());
    file.extend_from_slice(&verification);
    file.extend_from_slice(&b12);
    file.extend_from_slice(&b34);
    file.extend_from_slice(&iv);
    file.extend_from_slice(&body);
    file.extend_from_slice(b"PWS3-EOFPWS3-EOF");
    file.extend_from_slice(&tag);
    let err = V3::new(&file, PASSWORD);
    assert_eq!(err.unwrap_err(), UnlockError::ParseError);
}

#[test]
fn bad_magic_is_format_error() {
    let mut file = build_db(PASSWORD, &reference_records());
    file[0] = b'X';
    let err = V3::new(&file, PASSWORD);
    assert_eq!(err.unwrap_err(), UnlockError::FormatError);
}

#[test]
fn short_file_is_format_error() {
    let file = build_db(PASSWORD, &reference_records());
    let err = V3::new(&file[..100], PASSWORD);
    assert_eq!(err.unwrap_err(), UnlockError::FormatError);
}

#[test]
fn missing_end_marker_is_format_error() {
    let file = build_db(PASSWORD, &reference_records());
    // cut the file before the end marker
    let cut = file.len() - 48;
    let err = V3::new(&file[..cut], PASSWORD);
    assert_eq!(err.unwrap_err(), UnlockError::FormatError);
}

#[test]
fn misaligned_ciphertext_is_decryption_error() {
    let file = build_db(PASSWORD, &reference_records());
    // splice 8 extra bytes in front of the end marker: the marker is found
    // at an offset that is not a whole number of cipher blocks
    let marker_pos = file.len() - 48;
    let mut spliced = file[..marker_pos].to_vec();
    spliced.extend_from_slice(&[1u8; 8]);
    spliced.extend_from_slice(&file[marker_pos..]);
    let err = V3::new(&spliced, PASSWORD);
    assert_eq!(err.unwrap_err(), UnlockError::DecryptionError);
}

#[test]
fn stretch_is_deterministic() {
    let salt = [9u8; 32];
    let a = stretch("some password", &salt, 1000);
    let b = stretch("some password", &salt, 1000);
    assert_eq!(a, b);
    assert_eq!(a.len(), 32);
    let c = stretch("some password", &salt, 1001);
    assert_ne!(a, c);
}

#[test]
fn sha256_known_vector() {
    let d = sha256(b"abc");
    let expected: Vec<u8> = vec![
        0xba, 0x78, 0x16, 0xbf, 0x8f, 0x01, 0xcf, 0xea, 0x41, 0x41, 0x40, 0xde, 0x5d, 0xae,
        0x22, 0x23, 0xb0, 0x03, 0x61, 0xa3, 0x96, 0x17, 0x7a, 0x9c, 0xb4, 0x10, 0xff, 0x61,
        0xf2, 0x00, 0x15, 0xad,
    ];
    assert_eq!(d, expected);
}
