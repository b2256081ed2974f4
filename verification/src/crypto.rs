//! The cryptographic, compression and encoding primitives the chat is built on.
//!
//! Every function here hands its work to an established crate; the contracts say
//! what those crates document about their results, and name the results that take
//! pages to state (digests, ciphertexts, curve points, compressed blocks).
use vstd::prelude::*;
use chacha20poly1305::aead::{Aead, KeyInit};
use chacha20poly1305::ChaCha20Poly1305;
use sha2::Digest;

verus! {

/// A 32-byte symmetric key (the key of a peer-to-peer channel).
pub type Key = [u8; 32];

/// The 12-byte nonce that prefixes every encrypted frame.
pub type NonceBytes = [u8; 12];

/// Size of the ChaCha20-Poly1305 authentication tag.
pub const TAG_LEN: usize = 16;

/// The SHA-256 digest of `data`.
pub uninterp spec fn sha256(data: Seq<u8>) -> Seq<u8>;

/// The ChaCha20-Poly1305 ciphertext (with its 16-byte tag appended) of `plaintext`
/// under `key` and `nonce`, with no associated data.
pub uninterp spec fn chacha20poly1305_seal(key: Seq<u8>, nonce: Seq<u8>, plaintext: Seq<u8>) -> Seq<u8>;

/// What ChaCha20-Poly1305 decryption of `ciphertext` under `key` and `nonce` yields:
/// the plaintext, or nothing when the tag does not authenticate.
pub uninterp spec fn chacha20poly1305_open(key: Seq<u8>, nonce: Seq<u8>, ciphertext: Seq<u8>) -> Option<Seq<u8>>;

/// The LZ4 block compression of `input`, prefixed with its length as a little-endian u32.
pub uninterp spec fn lz4_compressed(input: Seq<u8>) -> Seq<u8>;

/// What LZ4 decompression of a size-prefixed block yields (nothing on malformed input).
pub uninterp spec fn lz4_decompressed(input: Seq<u8>) -> Option<Seq<u8>>;

/// The X25519 public key of the (clamped) secret scalar `secret`.
pub uninterp spec fn x25519_public_key(secret: Seq<u8>) -> Seq<u8>;

/// The X25519 shared secret of `secret` and the peer point `public`.
pub uninterp spec fn x25519_shared_secret(secret: Seq<u8>, public: Seq<u8>) -> Seq<u8>;

/// The 32 output bytes of HKDF-SHA256 with no salt, input keying material `ikm` and `info`.
pub uninterp spec fn hkdf_sha256(ikm: Seq<u8>, info: Seq<u8>) -> Seq<u8>;

/// The unsigned value of four bytes read little-endian.
pub open spec fn le_u32(b: Seq<u8>) -> int
    recommends
        b.len() >= 4,
{
    b[0] as int + b[1] as int * 0x100 + b[2] as int * 0x1_0000 + b[3] as int * 0x100_0000
}

/// The lower-case hex digit of a nibble.
pub open spec fn hex_digit(n: int) -> char {
    if n < 10 {
        (48 + n) as char
    } else {
        (87 + n) as char
    }
}

/// Lower-case hexadecimal text of `bytes`, two digits per byte, high nibble first.
pub open spec fn hex_encoded(bytes: Seq<u8>) -> Seq<char>
    decreases bytes.len(),
{
    if bytes.len() == 0 {
        Seq::empty()
    } else {
        seq![hex_digit(bytes[0] as int / 16), hex_digit(bytes[0] as int % 16)] + hex_encoded(bytes.drop_first())
    }
}

/// The value of one hex digit (either case), given as its ASCII byte.
pub open spec fn hex_value(c: u8) -> Option<int> {
    if 48 <= c <= 57 {
        Some(c - 48)
    } else if 97 <= c <= 102 {
        Some(c - 87)
    } else if 65 <= c <= 70 {
        Some(c - 55)
    } else {
        None
    }
}

/// The bytes that hexadecimal text (given as its UTF-8 bytes) stands for: nothing when the
/// length is odd or some byte is not a hex digit.
pub open spec fn hex_decoded(text: Seq<u8>) -> Option<Seq<u8>>
    decreases text.len(),
{
    if text.len() % 2 != 0 {
        None
    } else if text.len() == 0 {
        Some(Seq::empty())
    } else {
        match (hex_value(text[0]), hex_value(text[1]), hex_decoded(text.subrange(2, text.len() as int))) {
            (Some(hi), Some(lo), Some(rest)) => Some(seq![(hi * 16 + lo) as u8] + rest),
            _ => None,
        }
    }
}

/// Whether every character of `t` is ASCII.
pub open spec fn all_ascii(t: Seq<char>) -> bool {
    forall|i: int| 0 <= i < t.len() ==> (#[trigger] t[i] as u32) < 128
}

/// The bytes of ASCII text, one per character.
pub open spec fn ascii_bytes(t: Seq<char>) -> Seq<u8> {
    t.map_values(|c: char| c as u8)
}

/// The bytes that hexadecimal text stands for: nothing when the text holds a character
/// outside ASCII (its UTF-8 bytes are no hex digits), has odd length or a non-digit.
pub open spec fn hex_decoded_text(t: Seq<char>) -> Option<Seq<u8>> {
    if all_ascii(t) {
        hex_decoded(ascii_bytes(t))
    } else {
        None
    }
}

/// Hexadecimal text reads back as the bytes it was written from.
pub proof fn lemma_hex_roundtrip(b: Seq<u8>)
    ensures
        hex_decoded_text(hex_encoded(b)) == Some(b),
    decreases b.len(),
{
    let t = hex_encoded(b);
    lemma_hex_encoded_shape(b);
    if b.len() > 0 {
        let rest = b.drop_first();
        lemma_hex_roundtrip(rest);
        lemma_hex_encoded_shape(rest);
        let bytes = ascii_bytes(t);
        assert(bytes.subrange(2, bytes.len() as int) =~= ascii_bytes(hex_encoded(rest)));
        lemma_hex_digit_value(b[0] as int / 16);
        lemma_hex_digit_value(b[0] as int % 16);
        assert(hex_decoded(bytes) == Some(seq![((b[0] as int / 16) * 16 + b[0] as int % 16) as u8] + rest));
        assert(seq![b[0]] + rest =~= b);
    } else {
        assert(ascii_bytes(t) =~= Seq::<u8>::empty());
    }
}

/// Whether `c` is a lower-case hex digit.
pub open spec fn is_hex_char(c: char) -> bool {
    ('0' <= c <= '9') || ('a' <= c <= 'f')
}

/// Hexadecimal text is made of lower-case hex digits, two per byte.
pub proof fn lemma_hex_chars(b: Seq<u8>)
    ensures
        hex_encoded(b).len() == 2 * b.len(),
        forall|i: int| 0 <= i < hex_encoded(b).len() ==> is_hex_char(#[trigger] hex_encoded(b)[i]),
    decreases b.len(),
{
    if b.len() > 0 {
        lemma_hex_chars(b.drop_first());
        let t = hex_encoded(b);
        let r = hex_encoded(b.drop_first());
        assert forall|i: int| 0 <= i < t.len() implies is_hex_char(#[trigger] t[i]) by {
            if i >= 2 {
                assert(t[i] == r[i - 2]);
            }
        }
    }
}

/// Hexadecimal text is ASCII, two characters per byte.
proof fn lemma_hex_encoded_shape(b: Seq<u8>)
    ensures
        hex_encoded(b).len() == 2 * b.len(),
        all_ascii(hex_encoded(b)),
    decreases b.len(),
{
    if b.len() > 0 {
        lemma_hex_encoded_shape(b.drop_first());
        let t = hex_encoded(b);
        let r = hex_encoded(b.drop_first());
        assert forall|i: int| 0 <= i < t.len() implies (#[trigger] t[i] as u32) < 128 by {
            if i >= 2 {
                assert(t[i] == r[i - 2]);
            }
        }
    }
}

/// A hex digit reads back as its nibble.
proof fn lemma_hex_digit_value(n: int)
    requires
        0 <= n < 16,
    ensures
        hex_value(hex_digit(n) as u8) == Some(n),
{
}

/// Views an optional byte vector.
pub open spec fn opt_bytes(o: Option<Vec<u8>>) -> Option<Seq<u8>> {
    match o {
        Some(v) => Some(v@),
        None => None,
    }
}

/// SHA-256 of `data` (`sha2::Sha256::digest`).
/// The contract names the digest and claims nothing more of it.
#[verifier::external_body]
pub(crate) fn sha256_digest(data: &[u8]) -> (res: [u8; 32])
    ensures
        res@ == sha256(data@),
{
    let out = sha2::Sha256::digest(data);
    out.into()
}

/// ChaCha20-Poly1305 encryption without associated data (`Aead::encrypt`).
/// The contract claims: it fails only when the plaintext reaches the cipher's block limit
/// (64 * (2^32 - 1) bytes), the ciphertext is the plaintext length plus the 16-byte tag,
/// and decrypting it with the same key and nonce gives the plaintext back.
#[verifier::external_body]
pub(crate) fn aead_seal(key: &Key, nonce: &[u8], plaintext: &[u8]) -> (res: Option<Vec<u8>>)
    requires
        nonce@.len() == 12,
    ensures
        res is Some <==> plaintext@.len() / 64 < 0xFFFF_FFFF,
        res matches Some(c) ==> {
            &&& c@ == chacha20poly1305_seal(key@, nonce@, plaintext@)
            &&& c@.len() == plaintext@.len() + TAG_LEN
            &&& chacha20poly1305_open(key@, nonce@, c@) == Some(plaintext@)
        },
{
    let cipher = ChaCha20Poly1305::new(chacha20poly1305::Key::from_slice(key));
    cipher.encrypt(chacha20poly1305::Nonce::from_slice(nonce), plaintext).ok()
}

/// ChaCha20-Poly1305 decryption without associated data (`Aead::decrypt`).
/// The contract names the result; it claims that input shorter than the tag is refused
/// and that a plaintext is the ciphertext minus the 16-byte tag.
#[verifier::external_body]
pub(crate) fn aead_open(key: &Key, nonce: &[u8], ciphertext: &[u8]) -> (res: Option<Vec<u8>>)
    requires
        nonce@.len() == 12,
    ensures
        opt_bytes(res) == chacha20poly1305_open(key@, nonce@, ciphertext@),
        ciphertext@.len() < TAG_LEN ==> res is None,
        res matches Some(p) ==> p@.len() + TAG_LEN == ciphertext@.len(),
{
    let cipher = ChaCha20Poly1305::new(chacha20poly1305::Key::from_slice(key));
    cipher.decrypt(chacha20poly1305::Nonce::from_slice(nonce), ciphertext).ok()
}

/// `N` random bytes from the operating system (`getrandom::fill` on an array of `N` bytes);
/// `None` when the operating system refuses. Nothing is claimed of the bytes.
#[verifier::external_body]
fn os_random<const N: usize>() -> (res: Option<[u8; N]>) {
    let mut bytes = [0u8; N];
    match getrandom::fill(&mut bytes[..]) {
        Ok(()) => Some(bytes),
        Err(_) => None,
    }
}

/// 12 random bytes for a nonce; `None` when the operating system gives no randomness.
pub(crate) fn random_nonce() -> (res: Option<NonceBytes>) {
    os_random::<12>()
}

/// LZ4 block compression with the input length prepended (`lz4_flex::compress_prepend_size`).
/// The contract claims: the first four bytes are the input length as a little-endian u32,
/// and (for inputs that fit a u32 length) decompression gives the input back.
#[verifier::external_body]
pub(crate) fn lz4_compress(input: &[u8]) -> (res: Vec<u8>)
    ensures
        res@ == lz4_compressed(input@),
        res@.len() >= 4,
        input@.len() <= u32::MAX ==> le_u32(res@) == input@.len(),
        input@.len() <= u32::MAX ==> lz4_decompressed(res@) == Some(input@),
{
    lz4_flex::compress_prepend_size(input)
}

/// LZ4 decompression of a size-prefixed block (`lz4_flex::decompress_size_prepended`).
/// The contract names the result; it claims that input shorter than the 4-byte prefix is
/// refused and that the output is never longer than the prefix announces.
#[verifier::external_body]
pub(crate) fn lz4_decompress(input: &[u8]) -> (res: Option<Vec<u8>>)
    ensures
        opt_bytes(res) == lz4_decompressed(input@),
        input@.len() < 4 ==> res is None,
        res matches Some(v) ==> v@.len() <= le_u32(input@),
{
    lz4_flex::decompress_size_prepended(input).ok()
}

/// The X25519 public key of a secret (`PublicKey::from(&StaticSecret::from(secret))`).
#[verifier::external_body]
pub(crate) fn x25519_public(secret: &[u8; 32]) -> (res: [u8; 32])
    ensures
        res@ == x25519_public_key(secret@),
{
    let s = x25519_dalek::StaticSecret::from(*secret);
    x25519_dalek::PublicKey::from(&s).to_bytes()
}

/// X25519 Diffie-Hellman (`StaticSecret::diffie_hellman`). The contract names the shared
/// secret and claims the defining agreement of Diffie-Hellman: when `public` is the public
/// key of some secret `other`, the result is what `other` computes with our public key.
#[verifier::external_body]
pub(crate) fn x25519_diffie_hellman(secret: &[u8; 32], public: &[u8; 32]) -> (res: [u8; 32])
    ensures
        res@ == x25519_shared_secret(secret@, public@),
        forall|other: Seq<u8>|
            #[trigger] x25519_public_key(other) == public@ ==> res@ == x25519_shared_secret(
                other,
                x25519_public_key(secret@),
            ),
{
    let s = x25519_dalek::StaticSecret::from(*secret);
    let p = x25519_dalek::PublicKey::from(*public);
    s.diffie_hellman(&p).to_bytes()
}

/// HKDF-SHA256 with no salt, expanded to 32 bytes (`Hkdf::<Sha256>::new` then `expand`).
/// A 32-byte output is always within HKDF's limit, so the expansion cannot fail.
#[verifier::external_body]
pub(crate) fn hkdf_expand(ikm: &[u8; 32], info: &[u8]) -> (res: [u8; 32])
    ensures
        res@ == hkdf_sha256(ikm@, info@),
{
    let hk = hkdf::Hkdf::<sha2::Sha256>::new(None, ikm);
    let mut okm = [0u8; 32];
    hk.expand(info, &mut okm).unwrap();
    okm
}

/// 32 random bytes for a secret key; `None` when the operating system gives no randomness.
pub(crate) fn random_secret() -> (res: Option<[u8; 32]>) {
    os_random::<32>()
}

/// Lower-case hexadecimal text of `bytes` (`hex::encode`).
#[verifier::external_body]
pub(crate) fn hex_encode(bytes: &[u8]) -> (res: String)
    ensures
        res@ == hex_encoded(bytes@),
{
    hex::encode(bytes)
}

/// The bytes that hexadecimal text stands for (`hex::decode`); `None` on odd length or a
/// character that is not a hex digit of either case.
#[verifier::external_body]
pub(crate) fn hex_decode(text: &str) -> (res: Option<Vec<u8>>)
    ensures
        opt_bytes(res) == hex_decoded_text(text@),
{
    hex::decode(text).ok()
}

} // verus!
