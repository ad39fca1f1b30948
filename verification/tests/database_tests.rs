use auditfs::database::compress::{compress, decompress};
use auditfs::database::hmac::{derive_key, sign, verify};
use auditfs::database::serialize::{decode_image, encode_image, load, save, DbError};

#[test]
fn derive_key_has_32_bytes_and_is_deterministic() {
    let k1 = derive_key("secret");
    let k2 = derive_key("secret");
    let k3 = derive_key("autre");
    assert_eq!(k1.len(), 32);
    assert_eq!(k1, k2);
    assert_ne!(k1, k3);
}

#[test]
fn sign_then_verify() {
    let key = derive_key("secret");
    let sig = sign(b"donnees", &key);
    assert_eq!(sig.len(), 32);
    assert!(verify(b"donnees", &key, &sig));
}

#[test]
fn verify_fails_on_wrong_data_key_or_signature() {
    let key = derive_key("secret");
    let sig = sign(b"donnees", &key);
    assert!(!verify(b"donnees modifiees", &key, &sig));
    assert!(!verify(b"donnees", &derive_key("autre"), &sig));
    assert!(!verify(b"donnees", &key, &sig[..31]));
    let mut bad = sig.clone();
    bad[0] ^= 1;
    assert!(!verify(b"donnees", &key, &bad));
}

#[test]
fn hmac_known_vector() {
    // RFC 4231, test case 2.
    let sig = sign(b"what do ya want for nothing?", b"Jefe");
    let hex: String = sig.iter().map(|b| format!("{:02x}", b)).collect();
    assert_eq!(hex, "5bdcc146bf60754e6a042426089575c75a003f089d2739839dec58b964ec3843");
}

#[test]
fn compress_then_decompress() {
    let data = b"contenu contenu contenu contenu contenu".to_vec();
    let c = compress(&data).unwrap();
    assert_ne!(c, data);
    assert_eq!(decompress(&c), Some(data));
    assert_eq!(decompress(b"pas du gzip"), None);
}

#[test]
fn frame_roundtrip() {
    let image = encode_image(&[1, 2, 3], &[9, 8]);
    assert_eq!(image, vec![3, 0, 0, 0, 1, 2, 3, 9, 8]);
    let (s, p) = decode_image(&image).unwrap();
    assert_eq!(s, &[1, 2, 3]);
    assert_eq!(p, &[9, 8]);
}

#[test]
fn save_load_roundtrip() {
    let data = b"baseline serialisee".to_vec();
    let image = save(&data, "secret").unwrap();
    assert_eq!(&image[..4], &[32, 0, 0, 0]);
    assert_eq!(load(&image, "secret"), Ok(data));
}

#[test]
fn wrong_password_fails() {
    let image = save(b"baseline", "secret").unwrap();
    assert_eq!(load(&image, "mauvais"), Err(DbError::InvalidSignature));
}

#[test]
fn tampered_image_fails() {
    let mut image = save(b"baseline", "secret").unwrap();
    let last = image.len() - 1;
    image[last] ^= 0xff;
    assert_eq!(load(&image, "secret"), Err(DbError::InvalidSignature));
}

#[test]
fn short_images_are_corrupted() {
    assert_eq!(load(&[1, 0, 0], "secret"), Err(DbError::Corrupted));
    assert_eq!(load(&[40, 0, 0, 0, 1, 2], "secret"), Err(DbError::Corrupted));
    assert_eq!(decode_image(&[5, 0, 0, 0, 1]), Err(DbError::Corrupted));
}

#[test]
fn signed_garbage_fails_to_decompress() {
    let key = derive_key("secret");
    let payload = b"not gzip".to_vec();
    let sig = sign(&payload, &key);
    let image = encode_image(&sig, &payload);
    assert_eq!(load(&image, "secret"), Err(DbError::Decompression));
}

#[test]
fn save_always_succeeds() {
    assert!(save(&[], "").is_ok());
    assert!(save(&[1, 2, 3], "pw").is_ok());
    assert_eq!(load(&save(&[], "").unwrap(), ""), Ok(vec![]));
}
