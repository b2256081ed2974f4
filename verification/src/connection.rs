//! The peer-to-peer layer: peers, the encrypted frame format, database-sync payloads,
//! the rendezvous handshake and the decisions taken on what arrives.
pub mod frame;
pub mod dbsync;
pub mod peer;
pub mod ratelimit;
pub mod rendezvous;
pub mod roster;
pub mod peermap;
pub mod dispatch;

pub use frame::{
    AVP_HD, DBR_HD, DBS_HD, EVI_HD, HBT_HD, KCK_HD, MAX_FRAME, MSG_HD, NONCE_LEN, NWP_HD, OWN_HD,
    REJ_HD, TYP_HD, FrameError, decode, encode, encode_with_nonce,
};
