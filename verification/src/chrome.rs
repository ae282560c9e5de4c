//! The GitHub session cookie that Chrome keeps on macOS: its AES key is derived
//! from the Keychain password with PBKDF2, and its value is AES-128-CBC
//! encrypted behind a `v10` tag.
use vstd::prelude::*;
use vstd::utf8::{valid_utf8, decode_utf8};
use crate::text::{push_u64, dec};

verus! {

/// The 16 bytes that PBKDF2 with HMAC-SHA1 derives from `password`, `salt` and
/// `rounds` rounds.
pub uninterp spec fn pbkdf2_hmac_sha1_16(password: Seq<u8>, salt: Seq<u8>, rounds: u32) -> Seq<u8>;

/// `pbkdf2::pbkdf2::<Hmac<Sha1>>` filling a 16-byte key: the key is the derived
/// one. The call fails only when the pseudo-random function refuses the
/// password as a key, which HMAC never does.
#[verifier::external_body]
fn pbkdf2_hmac_sha1(password: &[u8], salt: &[u8], rounds: u32) -> (key: [u8; 16])
    ensures
        key@ == pbkdf2_hmac_sha1_16(password@, salt@, rounds),
{
    let mut key = [0u8; 16];
    let _ = pbkdf2::pbkdf2::<hmac::Hmac<sha1::Sha1>>(password, salt, rounds, &mut key);
    key
}

/// The block that AES-128 decryption with `key` makes of `block`.
pub uninterp spec fn aes128_decrypt_block(key: Seq<u8>, block: Seq<u8>) -> Seq<u8>;

/// `aes::Aes128::decrypt_block` on one 16-byte block: the result is the
/// decrypted block.
#[verifier::external_body]
fn aes128_decrypt(key: &[u8; 16], block: &[u8]) -> (r: [u8; 16])
    requires
        block@.len() == 16,
    ensures
        r@ == aes128_decrypt_block(key@, block@),
{
    let cipher = <aes::Aes128 as aes::cipher::KeyInit>::new(aes::cipher::generic_array::GenericArray::from_slice(key));
    let mut b = aes::cipher::generic_array::GenericArray::clone_from_slice(block);
    aes::cipher::BlockDecrypt::decrypt_block(&cipher, &mut b);
    let mut out = [0u8; 16];
    out.copy_from_slice(&b);
    out
}

/// `String::from_utf8`: the text the bytes encode when they are UTF-8, an error
/// otherwise. What the error says is not stated.
#[verifier::external_body]
fn string_from_utf8(bytes: Vec<u8>) -> (r: Result<String, String>)
    ensures
        r is Ok <==> valid_utf8(bytes@),
        r matches Ok(s) ==> s@ == decode_utf8(bytes@),
{
    match String::from_utf8(bytes) {
        Ok(s) => Ok(s),
        Err(e) => Err(format!("{}", e)),
    }
}

/// The salt Chrome derives its cookie key with: `saltysalt`.
pub open spec fn chrome_salt() -> Seq<u8> {
    seq![115u8, 97u8, 108u8, 116u8, 121u8, 115u8, 97u8, 108u8, 116u8]
}

/// The AES key of Chrome's cookies for the Keychain password `password`.
pub fn derive_chrome_aes_key(password: &[u8]) -> (key: [u8; 16])
    ensures
        key@ == pbkdf2_hmac_sha1_16(password@, chrome_salt(), 1003),
{
    let salt: Vec<u8> = vec![115u8, 97u8, 108u8, 116u8, 121u8, 115u8, 97u8, 108u8, 116u8];
    assert(salt@ =~= chrome_salt());
    pbkdf2_hmac_sha1(password, salt.as_slice(), 1003)
}

/// The AES-128 decryption with `key` of the first `k` 16-byte blocks of `ct`,
/// in order.
pub open spec fn decrypted_blocks(key: Seq<u8>, ct: Seq<u8>, k: nat) -> Seq<u8>
    decreases k,
{
    if k == 0 {
        seq![]
    } else {
        decrypted_blocks(key, ct, (k - 1) as nat) + aes128_decrypt_block(key, ct.subrange(16 * (k - 1), (16 * k) as int))
    }
}

/// Cipher block chaining: each byte of the decrypted blocks `dec`, xor the byte
/// of the ciphertext `ct` one block before it (of the IV, sixteen spaces, in the
/// first block).
pub open spec fn cbc_xor(dec: Seq<u8>, ct: Seq<u8>) -> Seq<u8> {
    Seq::new(dec.len(), |i: int| dec[i] ^ (if i < 16 { 32u8 } else { ct[i - 16] }))
}

/// The value a decrypted cookie `p` carries, or why there is none: its PKCS#7
/// padding is taken off, and a 32-byte digest in front of a longer value is
/// dropped.
pub open spec fn spec_unpadded(p: Seq<u8>) -> Result<Seq<u8>, Seq<char>> {
    if p.len() == 0 {
        Err("empty plaintext"@)
    } else {
        let pad = p.last();
        if pad == 0 || pad > 16 || pad > p.len() {
            Err("invalid PKCS7 padding: pad="@ + dec(pad as nat))
        } else {
            let t = p.take(p.len() - pad);
            Ok(if t.len() > 32 { t.skip(32) } else { t })
        }
    }
}

/// The plaintext bytes of an encrypted cookie value, or the reason there are none.
pub open spec fn spec_cookie_bytes(enc: Seq<u8>, key: Seq<u8>) -> Result<Seq<u8>, Seq<char>> {
    if enc.len() < 19 {
        Err("encrypted value too short"@)
    } else {
        let ct = enc.skip(3);
        if ct.len() % 16 != 0 {
            Err("ciphertext not block-aligned"@)
        } else {
            spec_unpadded(cbc_xor(decrypted_blocks(key, ct, ct.len() / 16), ct))
        }
    }
}

/// Chains decrypted blocks `decrypted` with the ciphertext `ct` they came from.
pub fn cbc_combine(decrypted: &[u8], ct: &[u8]) -> (r: Vec<u8>)
    requires
        decrypted@.len() == ct@.len(),
    ensures
        r@ == cbc_xor(decrypted@, ct@),
{
    let mut out: Vec<u8> = Vec::new();
    let mut i: usize = 0;
    while i < decrypted.len()
        invariant
            i <= decrypted@.len() == ct@.len(),
            out@ =~= cbc_xor(decrypted@, ct@).take(i as int),
        decreases decrypted@.len() - i,
    {
        let prev: u8 = if i < 16 { 32u8 } else { ct[i - 16] };
        out.push(decrypted[i] ^ prev);
        i += 1;
    }
    out
}

/// The cookie value a decrypted cookie `plain` carries (see `spec_unpadded`),
/// as text; an error when it is no UTF-8.
pub fn cookie_from_plaintext(plain: Vec<u8>) -> (r: Result<String, String>)
    ensures
        match spec_unpadded(plain@) {
            Err(m) => r matches Err(e) && e@ == m,
            Ok(b) => (valid_utf8(b) ==> (r matches Ok(s) && s@ == decode_utf8(b))) && (!valid_utf8(b) ==> r is Err),
        },
{
    proof { reveal_strlit("empty plaintext"); }
    let mut plain = plain;
    let len = plain.len();
    if len == 0 {
        return Err(String::from_str("empty plaintext"));
    }
    let pad = plain[len - 1] as usize;
    if pad == 0 || pad > 16 || pad > len {
        let mut m = String::from_str("invalid PKCS7 padding: pad=");
        push_u64(&mut m, pad as u64);
        return Err(m);
    }
    plain.truncate(len - pad);
    let ghost t = plain@;
    let out = if plain.len() > 32 {
        let mut rest: Vec<u8> = Vec::new();
        let mut i: usize = 32;
        while i < plain.len()
            invariant
                32 <= i <= plain@.len(),
                rest@ == plain@.subrange(32, i as int),
            decreases plain@.len() - i,
        {
            rest.push(plain[i]);
            assert(rest@ =~= plain@.subrange(32, i + 1));
            i += 1;
        }
        assert(rest@ =~= t.skip(32));
        rest
    } else {
        plain
    };
    string_from_utf8(out)
}

/// The value of an encrypted Chrome cookie: `v10`, then AES-128-CBC blocks
/// (IV of spaces) with PKCS#7 padding; a plaintext longer than 32 bytes starts
/// with a 32-byte digest that is dropped.
pub fn decrypt_chrome_cookie(encrypted: &[u8], key: &[u8; 16]) -> (r: Result<String, String>)
    ensures
        match spec_cookie_bytes(encrypted@, key@) {
            Err(m) => r matches Err(e) && e@ == m,
            Ok(b) => (valid_utf8(b) ==> (r matches Ok(s) && s@ == decode_utf8(b))) && (!valid_utf8(b) ==> r is Err),
        },
{
    proof {
        reveal_strlit("encrypted value too short");
        reveal_strlit("ciphertext not block-aligned");
    }
    let n = encrypted.len();
    if n < 19 {
        return Err(String::from_str("encrypted value too short"));
    }
    let clen = n - 3;
    if clen % 16 != 0 {
        return Err(String::from_str("ciphertext not block-aligned"));
    }
    let mut ct: Vec<u8> = Vec::new();
    let mut i: usize = 3;
    while i < n
        invariant
            3 <= i <= n == encrypted@.len(),
            ct@ == encrypted@.subrange(3, i as int),
        decreases n - i,
    {
        ct.push(encrypted[i]);
        assert(ct@ =~= encrypted@.subrange(3, i + 1));
        i += 1;
    }
    assert(ct@ =~= encrypted@.skip(3));
    let nb = clen / 16;
    let mut decrypted: Vec<u8> = Vec::new();
    let mut b: usize = 0;
    while b < nb
        invariant
            ct@.len() == clen,
            nb * 16 == clen,
            b <= nb,
            decrypted@ == decrypted_blocks(key@, ct@, b as nat),
            decrypted@.len() == 16 * b,
        decreases nb - b,
    {
        let start = 16 * b;
        let mut block: Vec<u8> = Vec::new();
        let mut j: usize = 0;
        while j < 16
            invariant
                j <= 16,
                b < nb,
                nb * 16 == clen,
                ct@.len() == clen,
                start == 16 * b,
                block@ == ct@.subrange(start as int, start + j),
            decreases 16 - j,
        {
            block.push(ct[start + j]);
            assert(block@ =~= ct@.subrange(start as int, start + j + 1));
            j += 1;
        }
        let d = aes128_decrypt(key, block.as_slice());
        let ghost before = decrypted@;
        let mut k: usize = 0;
        while k < 16
            invariant
                k <= 16,
                d@.len() == 16,
                decrypted@ == before + d@.take(k as int),
            decreases 16 - k,
        {
            decrypted.push(d[k]);
            assert(d@.take(k + 1) =~= d@.take(k as int).push(d@[k as int]));
            k += 1;
        }
        assert(d@.take(16) =~= d@);
        assert(decrypted_blocks(key@, ct@, (b + 1) as nat)
            == decrypted_blocks(key@, ct@, b as nat) + aes128_decrypt_block(key@, ct@.subrange(16 * b, 16 * b + 16)));
        b += 1;
    }
    let plain = cbc_combine(decrypted.as_slice(), ct.as_slice());
    cookie_from_plaintext(plain)
}

/// The GitHub session cookie of Chrome on macOS, from the Keychain password of
/// Chrome's safe storage and the cookie's encrypted value: the key derived from
/// the password decrypts the value.
pub fn session_from_chrome(password: &[u8], encrypted: &[u8]) -> (r: Result<String, String>)
    ensures
        match spec_cookie_bytes(encrypted@, pbkdf2_hmac_sha1_16(password@, chrome_salt(), 1003)) {
            Err(m) => r matches Err(e) && e@ == m,
            Ok(b) => (valid_utf8(b) ==> (r matches Ok(s) && s@ == decode_utf8(b))) && (!valid_utf8(b) ==> r is Err),
        },
{
    let key = derive_chrome_aes_key(password);
    decrypt_chrome_cookie(encrypted, &key)
}

} // verus!
