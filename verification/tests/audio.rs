use rpgm_asset_decrypter_lib::decrypter::{Decrypter, DEFAULT_KEY};
use rpgm_asset_decrypter_lib::RPGM_HEADER;

const OGG_SIGNATURE: &str = "OggS";

// The first bytes of an Ogg stream under the default key, behind the marker.
const ENCRYPTED_OGG_HEADER: [u8; 16] = [
    0x9b, 0x7a, 0xeb, 0x8a, 0x8f, 0x02, 0xb2, 0x04, 0xe9, 0x80, 0x09, 0x98, 0xec, 0xf8, 0x76, 0x6c,
];

fn track(extra: u8) -> Vec<u8> {
    let mut file = RPGM_HEADER.to_vec();
    file.extend_from_slice(&ENCRYPTED_OGG_HEADER);
    file.extend_from_slice(&[0x12, 0x34, 0, 0, 0, 0, 1, 2, 3, 4, 1, 30]);
    for i in 0..extra {
        file.push(i);
    }
    file
}

fn mv_audio() -> Vec<u8> {
    track(30)
}

fn mz_audio() -> Vec<u8> {
    track(200)
}

#[test]
fn audio_decrypt_mv() {
    let mut decrypter = Decrypter::new();
    decrypter.set_key_from_str(DEFAULT_KEY).unwrap();
    let decrypted = decrypter.decrypt(&mv_audio());

    let signature = std::str::from_utf8(&decrypted[0..4]).unwrap();
    assert!(signature == OGG_SIGNATURE);
    assert_eq!(&decrypted[..16], &[79, 103, 103, 83, 0, 2, 0, 0, 0, 0, 0, 0, 0, 0, 0x34, 0x12]);
    assert_eq!(&decrypted[16..], &mv_audio()[32..]);
}

#[test]
fn audio_encrypt_mv() {
    let mut decrypter = Decrypter::new();
    decrypter.set_key_from_str(DEFAULT_KEY).unwrap();
    let decrypted = decrypter.decrypt(&mv_audio());

    let encrypted = decrypter.encrypt(&decrypted).unwrap();
    assert_eq!(encrypted, mv_audio());
    let decrypted = decrypter.decrypt(&encrypted);

    let signature = std::str::from_utf8(&decrypted[0..4]).unwrap();
    assert!(signature == OGG_SIGNATURE);
}

#[test]
fn audio_decrypt_mz() {
    let mut decrypter = Decrypter::new();
    decrypter.set_key_from_str(DEFAULT_KEY).unwrap();
    let decrypted = decrypter.decrypt(&mz_audio());

    let signature = std::str::from_utf8(&decrypted[0..4]).unwrap();
    assert!(signature == OGG_SIGNATURE);
    assert_eq!(decrypted.len(), mz_audio().len() - 16);
}

#[test]
fn audio_encrypt_mz() {
    let mut decrypter = Decrypter::new();
    decrypter.set_key_from_str(DEFAULT_KEY).unwrap();
    let decrypted = decrypter.decrypt(&mz_audio());

    let encrypted = decrypter.encrypt(&decrypted).unwrap();
    assert_eq!(encrypted, mz_audio());
    let decrypted = decrypter.decrypt(&encrypted);

    let signature = std::str::from_utf8(&decrypted[0..4]).unwrap();
    assert!(signature == OGG_SIGNATURE);
}
