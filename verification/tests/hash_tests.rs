use keystone_sm::crypt::hkdf_sha3::hkdf_sha3_512;
use keystone_sm::crypt::hmac_sha3::{hmac_sha3, HmacSha3Ctx};
use keystone_sm::crypt::sha3::{compute, Sha3Ctx};
use keystone_sm::crypto::{hash_extend, hash_extend_page, hash_finalize, hash_init, kdf};

fn hex(bytes: &[u8]) -> String {
    let mut s = String::new();
    for b in bytes {
        s.push_str(&format!("{:02x}", b));
    }
    s
}

#[test]
fn sha3_512_of_empty_message() {
    let mut md = [0u8; 64];
    compute(b"", &mut md);
    assert_eq!(
        hex(&md),
        "a69f73cca23a9ac5c8b567dc185a756e97c982164fe25859e0d1dcc1475c80a6\
         15b2123af1f5f94c11e3e9402c3ac558f500199d95b6d3e301758586281dcd26"
    );
}

#[test]
fn sha3_512_of_abc() {
    let mut md = [0u8; 64];
    compute(b"abc", &mut md);
    assert_eq!(
        hex(&md),
        "b751850b1a57168a5693cd924b6b096e08f621827444f70d884f5d0240d2712e\
         10e116e9192af3c91a7ec57647e3934057340b4cf408d5a56592f8274eec53f0"
    );
}

#[test]
fn sha3_256_of_empty_message() {
    let mut md = [0u8; 32];
    compute(b"", &mut md);
    assert_eq!(
        hex(&md),
        "a7ffc6f8bf1ed76651c14756a061d662f580ff4de43b49fa82d80a4b80f8434a"
    );
}

#[test]
fn sha3_update_in_pieces_equals_update_at_once() {
    let data: Vec<u8> = (0..300u32).map(|i| (i * 7 + 3) as u8).collect();
    let mut whole = [0u8; 64];
    compute(&data, &mut whole);

    let mut ctx = Sha3Ctx::new(64);
    ctx.update(&data[..1]);
    ctx.update(&data[1..72]);
    ctx.update(&data[72..73]);
    ctx.update(&data[73..]);
    let mut pieces = [0u8; 64];
    ctx.finalize(&mut pieces);
    assert_eq!(whole, pieces);
}

#[test]
fn sha3_finalize_writes_no_more_than_the_digest() {
    let mut ctx = Sha3Ctx::new(32);
    ctx.update(b"abc");
    let mut md = [0xeeu8; 40];
    ctx.finalize(&mut md);
    let mut want = [0u8; 32];
    compute(b"abc", &mut want);
    assert_eq!(&md[..32], &want[..]);
    assert_eq!(&md[32..], &[0xeeu8; 8][..]);
}

#[test]
fn hash_interface_matches_sha3_512() {
    let mut page = vec![0u8; 4096 + 10];
    for (i, b) in page.iter_mut().enumerate() {
        *b = (i % 251) as u8;
    }
    let mut ctx = Sha3Ctx::new(64);
    hash_init(&mut ctx);
    hash_extend(&mut ctx, b"prefix-and-more", 6);
    hash_extend_page(&mut ctx, &page);
    let mut md = [0u8; 64];
    hash_finalize(&mut md, &mut ctx);

    let mut msg = b"prefix".to_vec();
    msg.extend_from_slice(&page[..4096]);
    let mut want = [0u8; 64];
    compute(&msg, &mut want);
    assert_eq!(md, want);
}

fn reference_hmac(key: &[u8], text: &[u8]) -> [u8; 64] {
    let mut k = [0u8; 72];
    if key.len() > 72 {
        let mut d = [0u8; 64];
        compute(key, &mut d);
        k[..64].copy_from_slice(&d);
    } else {
        k[..key.len()].copy_from_slice(key);
    }
    let mut inner_msg: Vec<u8> = k.iter().map(|b| b ^ 0x36).collect();
    inner_msg.extend_from_slice(text);
    let mut inner = [0u8; 64];
    compute(&inner_msg, &mut inner);
    let mut outer_msg: Vec<u8> = k.iter().map(|b| b ^ 0x5c).collect();
    outer_msg.extend_from_slice(&inner);
    let mut out = [0u8; 64];
    compute(&outer_msg, &mut out);
    out
}

#[test]
fn hmac_is_the_nested_hash_for_a_short_key() {
    let mut out = [0u8; 64];
    hmac_sha3(b"key", b"The quick brown fox", &mut out);
    assert_eq!(out, reference_hmac(b"key", b"The quick brown fox"));
}

#[test]
fn hmac_hashes_a_key_longer_than_a_block() {
    let key = [0xaau8; 100];
    let mut out = [0u8; 64];
    hmac_sha3(&key, b"text", &mut out);
    assert_eq!(out, reference_hmac(&key, b"text"));
    let mut other = [0u8; 64];
    hmac_sha3(&key[..72], b"text", &mut other);
    assert_ne!(out, other);
}

#[test]
fn hmac_context_takes_text_in_pieces() {
    let mut ctx = HmacSha3Ctx::new(b"k");
    ctx.update(b"ab");
    ctx.update(b"cd");
    let mut out = [0u8; 64];
    ctx.finalize(&mut out);
    assert_eq!(out, reference_hmac(b"k", b"abcd"));
}

fn reference_hkdf(salt: &[u8], ikm: &[u8], info: &[u8], len: usize) -> Vec<u8> {
    let prk = reference_hmac(salt, ikm);
    let mut out = Vec::new();
    let mut t: Vec<u8> = Vec::new();
    let mut i = 1u8;
    while out.len() < len {
        let mut msg = t.clone();
        msg.extend_from_slice(info);
        msg.push(i);
        t = reference_hmac(&prk, &msg).to_vec();
        out.extend_from_slice(&t);
        i += 1;
    }
    out.truncate(len);
    out
}

#[test]
fn hkdf_expands_to_whole_and_partial_blocks() {
    let mut okm = [0u8; 128];
    assert_eq!(hkdf_sha3_512(b"", b"input key", b"info", &mut okm), 0);
    assert_eq!(okm.to_vec(), reference_hkdf(b"", b"input key", b"info", 128));

    let mut short = [0u8; 70];
    assert_eq!(hkdf_sha3_512(b"salt", b"input key", b"", &mut short), 0);
    assert_eq!(short.to_vec(), reference_hkdf(b"salt", b"input key", b"", 70));
}

#[test]
fn hkdf_rejects_more_than_255_blocks() {
    let mut okm = vec![7u8; 255 * 64 + 1];
    assert_eq!(hkdf_sha3_512(b"", b"k", b"", &mut okm), -1);
    assert!(okm.iter().all(|b| *b == 7));
    let mut most = vec![7u8; 255 * 64];
    assert_eq!(kdf(b"", b"k", b"", &mut most), 0);
    assert_eq!(most, reference_hkdf(b"", b"k", b"", 255 * 64));
}
