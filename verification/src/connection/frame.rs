//! The encrypted, length-checked frame format shared by every peer-to-peer packet.
use vstd::prelude::*;
use crate::crypto::{
    Key, NonceBytes, TAG_LEN, chacha20poly1305_open, chacha20poly1305_seal, le_u32, lz4_compressed,
    lz4_decompressed, aead_seal, aead_open, lz4_compress, lz4_decompress, random_nonce,
};

verus! {

/// Header of a chat message frame.
pub const MSG_HD: u8 = 0xF1;
/// Header of a heartbeat frame.
pub const HBT_HD: u8 = 0xE2;
/// Header of a typing-notice frame.
pub const TYP_HD: u8 = 0xD3;
/// Header of a database-sync frame.
pub const DBS_HD: u8 = 0xC4;
/// Header of a database-request frame.
pub const DBR_HD: u8 = 0xB5;
/// Header of the frame that admits a new peer (carries the database snapshot).
pub const NWP_HD: u8 = 0xA6;
/// Header of a kick frame.
pub const KCK_HD: u8 = 0x97;
/// Header of an address-table frame.
pub const AVP_HD: u8 = 0x88;
/// Header of the frame that evicts a peer from the rendezvous address.
pub const EVI_HD: u8 = 0x79;
/// Header of the frame that announces a peer's own addresses.
pub const OWN_HD: u8 = 0x6A;
/// Header of the frame that rejects a join request.
pub const REJ_HD: u8 = 0x5B;

/// Largest frame (and largest decompressed body) accepted from the wire.
pub const MAX_FRAME: usize = 8 * 1024 * 1024;

/// Length of the nonce that starts every encrypted frame.
pub const NONCE_LEN: usize = 12;

/// Why a frame could not be built or read.
#[derive(Debug, Clone, Copy, PartialEq, Eq, Structural)]
pub enum FrameError {
    /// The plaintext is beyond what the cipher can encrypt.
    EncryptionFailed,
    /// Fewer bytes than a nonce.
    TooShort,
    /// The ciphertext does not authenticate under the key.
    DecryptionFailed,
    /// The decrypted frame has no header byte.
    MissingHeader,
    /// A compressed body announces more than `MAX_FRAME` bytes.
    SizeCapExceeded,
    /// A compressed body is malformed.
    DecompressionFailed,
    /// The operating system gave no random bytes for the nonce.
    NoRandomness,
}

/// Frames whose body travels LZ4-compressed: the bulky database and address payloads.
pub open spec fn is_zipped(header: u8) -> bool {
    header == DBS_HD || header == NWP_HD || header == DBR_HD || header == AVP_HD
}

/// The plaintext that gets encrypted: the header byte, then the body, compressed when
/// the header calls for it.
pub open spec fn frame_plaintext(header: u8, packet: Seq<u8>) -> Seq<u8> {
    seq![header] + if is_zipped(header) {
        lz4_compressed(packet)
    } else {
        packet
    }
}

/// Whether the cipher accepts a plaintext of this length.
pub open spec fn sealable(plaintext: Seq<u8>) -> bool {
    plaintext.len() / 64 < 0xFFFF_FFFF
}

/// What reading a frame gives: the header and the (decompressed) body, or the first error met.
pub open spec fn decoded_frame(key: Seq<u8>, frame: Seq<u8>) -> Result<(u8, Seq<u8>), FrameError> {
    if frame.len() < NONCE_LEN {
        Err(FrameError::TooShort)
    } else {
        match chacha20poly1305_open(key, frame.take(12), frame.skip(12)) {
            None => Err(FrameError::DecryptionFailed),
            Some(plain) => if plain.len() == 0 {
                Err(FrameError::MissingHeader)
            } else {
                let header = plain[0];
                let rest = plain.skip(1);
                if is_zipped(header) {
                    if rest.len() >= 4 && le_u32(rest) > MAX_FRAME {
                        Err(FrameError::SizeCapExceeded)
                    } else {
                        match lz4_decompressed(rest) {
                            None => Err(FrameError::DecompressionFailed),
                            Some(body) => Ok((header, body)),
                        }
                    }
                } else {
                    Ok((header, rest))
                }
            },
        }
    }
}

/// Views the result of reading a frame.
pub open spec fn decoded_view(r: Result<(u8, Vec<u8>), FrameError>) -> Result<(u8, Seq<u8>), FrameError> {
    match r {
        Ok((h, body)) => Ok((h, body@)),
        Err(e) => Err(e),
    }
}

/// Builds the frame for `packet` under `key` with the given nonce: the nonce, then the
/// ChaCha20-Poly1305 encryption of the header byte and the (possibly compressed) body.
///
/// A frame built here reads back, under the same key, as exactly `header` and `packet`
/// (for compressed headers, as long as the body is within `MAX_FRAME`).
pub fn encode_with_nonce(key: &Key, nonce: &NonceBytes, header: u8, packet: &[u8]) -> (res: Result<Vec<u8>, FrameError>)
    ensures
        res is Ok <==> sealable(frame_plaintext(header, packet@)),
        res matches Ok(out) ==> out@ == nonce@ + chacha20poly1305_seal(key@, nonce@, frame_plaintext(header, packet@)),
        res matches Ok(out) ==> out@.len() == NONCE_LEN + frame_plaintext(header, packet@).len() + TAG_LEN,
        res matches Err(e) ==> e == FrameError::EncryptionFailed,
        res matches Ok(out) ==> ((!is_zipped(header) || packet@.len() <= MAX_FRAME)
            ==> decoded_frame(key@, out@) == Ok::<(u8, Seq<u8>), FrameError>((header, packet@))),
{
    let zipped = header == DBS_HD || header == NWP_HD || header == DBR_HD || header == AVP_HD;
    let mut plain: Vec<u8> = Vec::new();
    plain.push(header);
    let body: Vec<u8> = if zipped {
        lz4_compress(packet)
    } else {
        slice_to_vec(packet)
    };
    let ghost body_view = body@;
    append_bytes(&mut plain, body.as_slice());
    assert(plain@ == frame_plaintext(header, packet@));
    match aead_seal(key, nonce.as_slice(), plain.as_slice()) {
        None => Err(FrameError::EncryptionFailed),
        Some(sealed) => {
            let mut out: Vec<u8> = slice_to_vec(nonce.as_slice());
            append_bytes(&mut out, sealed.as_slice());
            proof {
                assert(out@.take(12) =~= nonce@);
                assert(out@.skip(12) =~= sealed@);
                assert(plain@[0] == header);
                assert(plain@.skip(1) =~= body_view);
            }
            Ok(out)
        },
    }
}

/// Encrypts `packet` under `key` as a frame with the given header byte, with a fresh random
/// nonce (`Connection::encode` of the chat, after the payload has been serialized). Fails when
/// the operating system gives no random bytes, or the frame is too long to encrypt.
pub fn encode(key: &Key, header: u8, packet: &[u8]) -> (res: Result<Vec<u8>, FrameError>)
    ensures
        res is Ok ==> sealable(frame_plaintext(header, packet@)),
        !sealable(frame_plaintext(header, packet@)) ==> res is Err,
        res matches Err(e) ==> e == FrameError::NoRandomness || (e == FrameError::EncryptionFailed && !sealable(
            frame_plaintext(header, packet@),
        )),
        res matches Ok(out) ==> out@.len() == NONCE_LEN + frame_plaintext(header, packet@).len() + TAG_LEN,
        res matches Ok(out) ==> out@ == out@.take(12) + chacha20poly1305_seal(
            key@,
            out@.take(12),
            frame_plaintext(header, packet@),
        ),
        res matches Ok(out) ==> ((!is_zipped(header) || packet@.len() <= MAX_FRAME)
            ==> decoded_frame(key@, out@) == Ok::<(u8, Seq<u8>), FrameError>((header, packet@))),
{
    let nonce = match random_nonce() {
        Some(n) => n,
        None => return Err(FrameError::NoRandomness),
    };
    let res = encode_with_nonce(key, &nonce, header, packet);
    proof {
        if res is Ok {
            assert(res->Ok_0@.take(12) =~= nonce@);
        }
    }
    res
}

/// Reads a frame: splits off the nonce, decrypts, takes the header byte, and decompresses
/// the body of compressed headers, refusing a body that announces more than `MAX_FRAME`
/// bytes before any decompression (`Connection::decode` of the chat).
pub fn decode(key: &Key, frame: &[u8]) -> (res: Result<(u8, Vec<u8>), FrameError>)
    ensures
        decoded_view(res) == decoded_frame(key@, frame@),
{
    if frame.len() < NONCE_LEN {
        return Err(FrameError::TooShort);
    }
    let nonce = &frame[0..12];
    let sealed = &frame[12..frame.len()];
    assert(nonce@ =~= frame@.take(12));
    assert(sealed@ =~= frame@.skip(12));
    let plain = match aead_open(key, nonce, sealed) {
        None => return Err(FrameError::DecryptionFailed),
        Some(p) => p,
    };
    if plain.len() == 0 {
        return Err(FrameError::MissingHeader);
    }
    let header = plain[0];
    let rest = &plain.as_slice()[1..plain.len()];
    assert(rest@ =~= plain@.skip(1));
    if header == DBS_HD || header == NWP_HD || header == DBR_HD || header == AVP_HD {
        if rest.len() >= 4 {
            let announced: u64 = rest[0] as u64 + rest[1] as u64 * 0x100 + rest[2] as u64 * 0x1_0000
                + rest[3] as u64 * 0x100_0000;
            if announced > MAX_FRAME as u64 {
                return Err(FrameError::SizeCapExceeded);
            }
        }
        match lz4_decompress(rest) {
            None => Err(FrameError::DecompressionFailed),
            Some(body) => Ok((header, body)),
        }
    } else {
        Ok((header, slice_to_vec(rest)))
    }
}

/// Copies a byte slice into a new vector.
pub fn slice_to_vec(s: &[u8]) -> (res: Vec<u8>)
    ensures
        res@ == s@,
{
    let mut v: Vec<u8> = Vec::new();
    append_bytes(&mut v, s);
    v
}

/// Appends the bytes of `s` to `v`.
pub fn append_bytes(v: &mut Vec<u8>, s: &[u8])
    ensures
        final(v)@ == old(v)@ + s@,
{
    let ghost start = v@;
    let mut i: usize = 0;
    while i < s.len()
        invariant
            i <= s@.len(),
            v@ == start + s@.take(i as int),
        decreases s@.len() - i,
    {
        v.push(s[i]);
        i = i + 1;
        assert(v@ =~= start + s@.take(i as int));
    }
    assert(s@.take(s@.len() as int) =~= s@);
}

/// Which frames travel compressed: database syncs and requests, a new member's chat snapshot
/// and address tables; every other frame carries its header byte and then the packet as it
/// is, so its frame is the nonce, one byte more than the packet, and the tag.
pub proof fn law_frame_layout(h: u8, packet: Seq<u8>)
    ensures
        is_zipped(h) <==> (h == DBS_HD || h == DBR_HD || h == NWP_HD || h == AVP_HD),
        frame_plaintext(h, packet)[0] == h,
        !is_zipped(h) ==> frame_plaintext(h, packet) == seq![h] + packet,
        !is_zipped(h) ==> NONCE_LEN + frame_plaintext(h, packet).len() + TAG_LEN == packet.len() + 29,
{
}

} // verus!
