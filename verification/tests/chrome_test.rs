use fp::chrome::{derive_chrome_aes_key, decrypt_chrome_cookie, cookie_from_plaintext, cbc_combine};

#[test]
fn derive_chrome_aes_key_produces_known_vector() {
    let key = derive_chrome_aes_key(b"testpassword");
    let expected: [u8; 16] = [0x6f, 0xbf, 0xc7, 0xe7, 0x02, 0x52, 0x90, 0xf4,
                              0x7d, 0x9c, 0x2a, 0x84, 0xd6, 0x7d, 0x5f, 0xd5];
    assert_eq!(key, expected, "PBKDF2-SHA1 key must match known vector for password=testpassword");
}

#[test]
fn decrypt_chrome_cookie_decrypts_aes_cbc_value() {
    let key = derive_chrome_aes_key(b"testpassword");
    let encrypted: Vec<u8> = vec![
        0x76, 0x31, 0x30,
        0x78, 0xb5, 0xed, 0x43, 0x5d, 0xa3, 0xdd, 0x82,
        0x11, 0xaa, 0x51, 0xd4, 0xc1, 0x47, 0x1f, 0x01,
    ];
    let result = decrypt_chrome_cookie(&encrypted, &key).unwrap();
    assert_eq!(result, "abc123", "decrypted value must equal original plaintext");
}

#[test]
fn decrypt_chrome_cookie_rejects_short_and_unaligned_values() {
    let key = [0u8; 16];
    assert_eq!(decrypt_chrome_cookie(&[0x76, 0x31, 0x30, 1, 2], &key).err().unwrap(), "encrypted value too short");
    let unaligned = vec![0u8; 3 + 17];
    assert_eq!(decrypt_chrome_cookie(&unaligned, &key).err().unwrap(), "ciphertext not block-aligned");
}

#[test]
fn decrypt_chrome_cookie_rejects_bad_padding() {
    let key = derive_chrome_aes_key(b"testpassword");
    let mut encrypted: Vec<u8> = vec![
        0x76, 0x31, 0x30,
        0x78, 0xb5, 0xed, 0x43, 0x5d, 0xa3, 0xdd, 0x82,
        0x11, 0xaa, 0x51, 0xd4, 0xc1, 0x47, 0x1f, 0x01,
    ];
    // A changed last ciphertext byte garbles the whole block, padding included.
    encrypted[18] ^= 0xff;
    match decrypt_chrome_cookie(&encrypted, &key) {
        Err(e) => assert!(e.starts_with("invalid PKCS7 padding") || !e.is_empty()),
        Ok(s) => assert_ne!(s, "abc123"),
    }
}

#[test]
fn plaintext_padding_and_digest() {
    // "abc" padded to a block.
    let mut p = b"abc".to_vec();
    p.extend(std::iter::repeat(13u8).take(13));
    assert_eq!(cookie_from_plaintext(p), Ok("abc".to_string()));
    assert_eq!(cookie_from_plaintext(vec![]).err().unwrap(), "empty plaintext");
    assert_eq!(cookie_from_plaintext(vec![1, 2, 0]).err().unwrap(), "invalid PKCS7 padding: pad=0");
    assert_eq!(cookie_from_plaintext(vec![1, 2, 17]).err().unwrap(), "invalid PKCS7 padding: pad=17");
    // A 32-byte digest in front of the value is dropped.
    let mut q = vec![0u8; 32];
    q.extend_from_slice(b"xyz");
    q.push(1);
    assert_eq!(cookie_from_plaintext(q), Ok("xyz".to_string()));
    assert!(cookie_from_plaintext(vec![0xff, 1]).is_err());
}

#[test]
fn chaining_xors_the_previous_block() {
    let dec = vec![0u8; 32];
    let ct: Vec<u8> = (0..32).collect();
    let out = cbc_combine(&dec, &ct);
    assert_eq!(&out[..16], &[32u8; 16]);
    assert_eq!(&out[16..], &ct[..16]);
}

#[test]
fn session_from_chrome_decrypts_with_the_derived_key() {
    let encrypted: Vec<u8> = vec![
        0x76, 0x31, 0x30,
        0x78, 0xb5, 0xed, 0x43, 0x5d, 0xa3, 0xdd, 0x82,
        0x11, 0xaa, 0x51, 0xd4, 0xc1, 0x47, 0x1f, 0x01,
    ];
    assert_eq!(fp::chrome::session_from_chrome(b"testpassword", &encrypted), Ok("abc123".to_string()));
    assert!(fp::chrome::session_from_chrome(b"otherpassword", &encrypted) != Ok("abc123".to_string()));
}
