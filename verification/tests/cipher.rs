use cfb8::cipher::{AsyncStreamCipher, KeyIvInit};
use craftio::cfb8::{setup_craft_cipher, CipherComponent, CipherError, CraftCipher};

const KEY: [u8; 16] = [
    0x2b, 0x7e, 0x15, 0x16, 0x28, 0xae, 0xd2, 0xa6, 0xab, 0xf7, 0x15, 0x88, 0x09, 0xcf, 0x4f, 0x3c,
];
const IV: [u8; 16] = [
    0x00, 0x01, 0x02, 0x03, 0x04, 0x05, 0x06, 0x07, 0x08, 0x09, 0x0a, 0x0b, 0x0c, 0x0d, 0x0e, 0x0f,
];
const PLAIN: [u8; 18] = [
    0x6b, 0xc1, 0xbe, 0xe2, 0x2e, 0x40, 0x9f, 0x96, 0xe9, 0x3d, 0x7e, 0x11, 0x73, 0x93, 0x17, 0x2a,
    0xae, 0x2d,
];
const WIRE: [u8; 18] = [
    0x3b, 0x79, 0x42, 0x4c, 0x9c, 0x0d, 0xd4, 0x36, 0xba, 0xce, 0x9e, 0x0e, 0xd4, 0x58, 0x6a, 0x4f,
    0x32, 0xb9,
];

fn sample(len: usize) -> Vec<u8> {
    let mut out = Vec::with_capacity(len);
    let mut x: u32 = 0x1234_5678;
    for _ in 0..len {
        x = x.wrapping_mul(1664525).wrapping_add(1013904223);
        out.push((x >> 24) as u8);
    }
    out
}

#[test]
fn encrypts_the_standard_vector() {
    let mut cipher = CraftCipher::new(&KEY, &IV, true).unwrap();
    let mut data = PLAIN;
    cipher.encrypt(&mut data);
    assert_eq!(data, WIRE);
}

#[test]
fn decrypts_the_standard_vector() {
    let mut cipher = CraftCipher::new(&KEY, &IV, false).unwrap();
    let mut data = WIRE;
    cipher.decrypt(&mut data);
    assert_eq!(data, PLAIN);
}

#[test]
fn encryption_changes_the_data() {
    let mut cipher = CraftCipher::new(&[0u8; 16], &[0u8; 16], true).unwrap();
    let mut data = [0x03, 0x00, 0xde, 0xad];
    cipher.encrypt(&mut data);
    assert_ne!(data, [0x03, 0x00, 0xde, 0xad]);
}

#[test]
fn agrees_with_the_cfb8_crate() {
    let plain = sample(1000);
    let key = sample(16);
    let iv: Vec<u8> = sample(32)[16..].to_vec();

    let mut ours = plain.clone();
    CraftCipher::new(&key, &iv, true).unwrap().encrypt(&mut ours);

    let mut theirs = plain.clone();
    cfb8::Encryptor::<aes::Aes128>::new_from_slices(&key, &iv).unwrap().encrypt(&mut theirs);
    assert_eq!(ours, theirs);

    let mut back = theirs.clone();
    CraftCipher::new(&key, &iv, false).unwrap().decrypt(&mut back);
    assert_eq!(back, plain);

    let mut their_back = ours.clone();
    cfb8::Decryptor::<aes::Aes128>::new_from_slices(&key, &iv).unwrap().decrypt(&mut their_back);
    assert_eq!(their_back, plain);
}

#[test]
fn pieces_give_the_same_ciphertext_as_the_whole() {
    let plain = sample(257);
    let mut whole = plain.clone();
    CraftCipher::new(&KEY, &IV, true).unwrap().encrypt(&mut whole);

    let mut cipher = CraftCipher::new(&KEY, &IV, true).unwrap();
    let mut pieces = plain.clone();
    let (a, rest) = pieces.split_at_mut(1);
    let (b, rest) = rest.split_at_mut(16);
    let (c, d) = rest.split_at_mut(100);
    cipher.encrypt(a);
    cipher.encrypt(b);
    cipher.encrypt(&mut []);
    cipher.encrypt(c);
    cipher.encrypt(d);
    assert_eq!(pieces, whole);

    let mut by_byte = plain.clone();
    let mut cipher = CraftCipher::new(&KEY, &IV, true).unwrap();
    for byte in by_byte.iter_mut() {
        cipher.encrypt(std::slice::from_mut(byte));
    }
    assert_eq!(by_byte, whole);
}

#[test]
fn pieces_give_the_same_plaintext_as_the_whole() {
    let plain = sample(300);
    let mut wire = plain.clone();
    CraftCipher::new(&KEY, &IV, true).unwrap().encrypt(&mut wire);

    let mut cipher = CraftCipher::new(&KEY, &IV, false).unwrap();
    let mut pieces = wire.clone();
    for chunk in pieces.chunks_mut(7) {
        cipher.decrypt(chunk);
    }
    assert_eq!(pieces, plain);
}

#[test]
fn new_checks_the_iv_first() {
    assert_eq!(
        CraftCipher::new(&[0u8; 15], &[0u8; 17], true).err(),
        Some(CipherError::BadSize { size: 17, component: CipherComponent::Iv })
    );
    assert_eq!(
        CraftCipher::new(&[0u8; 15], &[0u8; 16], true).err(),
        Some(CipherError::BadSize { size: 15, component: CipherComponent::Key })
    );
    assert_eq!(
        CraftCipher::new(&[], &[0u8; 16], false).err(),
        Some(CipherError::BadSize { size: 0, component: CipherComponent::Key })
    );
    assert_eq!(
        CraftCipher::new(&[0u8; 16], &[], false).err(),
        Some(CipherError::BadSize { size: 0, component: CipherComponent::Iv })
    );
    assert!(CraftCipher::new(&[0u8; 16], &[0u8; 16], false).is_ok());
}

#[test]
fn new_keeps_the_direction() {
    assert!(CraftCipher::new(&KEY, &IV, true).unwrap().is_encryptor());
    assert!(!CraftCipher::new(&KEY, &IV, false).unwrap().is_encryptor());
}

#[test]
fn error_constructors() {
    assert_eq!(
        CipherError::bad_size(CipherComponent::Key, 3),
        CipherError::BadSize { size: 3, component: CipherComponent::Key }
    );
    assert_eq!(CipherError::already_enabled(), CipherError::AlreadyEnabled);
}

#[test]
fn setup_fills_an_empty_slot_once() {
    let mut slot: Option<CraftCipher> = None;
    assert_eq!(setup_craft_cipher(&mut slot, &KEY, &IV, true), Ok(()));
    assert!(slot.is_some());
    assert_eq!(
        setup_craft_cipher(&mut slot, &KEY, &IV, true),
        Err(CipherError::AlreadyEnabled)
    );
    // The cipher that was installed first is still the one in the slot.
    let mut data = PLAIN;
    slot.as_mut().unwrap().encrypt(&mut data);
    assert_eq!(data, WIRE);
}

#[test]
fn setup_reports_already_enabled_before_bad_sizes() {
    let mut slot = Some(CraftCipher::new(&KEY, &IV, false).unwrap());
    assert_eq!(
        setup_craft_cipher(&mut slot, &[0u8; 3], &[0u8; 3], false),
        Err(CipherError::AlreadyEnabled)
    );
}

#[test]
fn setup_leaves_the_slot_empty_on_bad_sizes() {
    let mut slot: Option<CraftCipher> = None;
    assert_eq!(
        setup_craft_cipher(&mut slot, &KEY, &[0u8; 3], false),
        Err(CipherError::BadSize { size: 3, component: CipherComponent::Iv })
    );
    assert!(slot.is_none());
}
