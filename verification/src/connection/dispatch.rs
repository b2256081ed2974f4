//! What a node does with a frame that arrives on a stream: find whose channel key opens it,
//! then route it by its header, with the flood limit applied where the chat applies it.
use vstd::prelude::*;
use crate::connection::frame::{
    AVP_HD, DBR_HD, DBS_HD, FrameError, HBT_HD, KCK_HD, MSG_HD, NWP_HD, OWN_HD, REJ_HD, TYP_HD, decode,
    decoded_frame,
};
use crate::connection::ratelimit::{RateLimiter, accepts, counted, limit_of};
use crate::crypto::Key;

verus! {

/// The first of `keys` that opens `frame`: its position, the header and the body read.
pub open spec fn first_opening(keys: Seq<Seq<u8>>, frame: Seq<u8>) -> Option<(int, u8, Seq<u8>)>
    decreases keys.len(),
{
    if keys.len() == 0 {
        None
    } else {
        match decoded_frame(keys[0], frame) {
            Ok((h, body)) => Some((0, h, body)),
            Err(_) => match first_opening(keys.drop_first(), frame) {
                Some((i, h, body)) => Some((i + 1, h, body)),
                None => None,
            },
        }
    }
}

/// Finds which channel a frame came over (`listen`): the first key, in order, under which it
/// reads, with the header and body read.
pub fn open_with_any(keys: &Vec<Key>, frame: &[u8]) -> (res: Option<(usize, u8, Vec<u8>)>)
    ensures
        match first_opening(keys@.map_values(|k: Key| k@), frame@) {
            Some((i, h, body)) => res matches Some(r) && r.0 == i && r.1 == h && r.2@ == body,
            None => res is None,
        },
{
    let ghost all = keys@.map_values(|k: Key| k@);
    let mut i: usize = 0;
    assert(all.subrange(0, all.len() as int) =~= all);
    while i < keys.len()
        invariant
            i <= keys@.len(),
            all == keys@.map_values(|k: Key| k@),
            match first_opening(all.subrange(i as int, all.len() as int), frame@) {
                Some((j, h, body)) => first_opening(all, frame@) == Some((j + i, h, body)),
                None => first_opening(all, frame@) is None,
            },
        decreases keys@.len() - i,
    {
        let ghost rest = all.subrange(i as int, all.len() as int);
        assert(rest.drop_first() =~= all.subrange(i + 1, all.len() as int));
        assert(rest[0] == keys@[i as int]@);
        match decode(&keys[i], frame) {
            Ok((h, body)) => {
                return Some((i, h, body));
            },
            Err(_) => {},
        }
        i = i + 1;
    }
    None
}

/// What a node does with a frame.
#[derive(Debug, Clone, Copy, PartialEq, Eq, Structural)]
pub enum Route {
    /// The admin's answer to a join: build the chat from it.
    AcceptChat,
    /// The admin refused our join; keep its reason.
    Rejected,
    /// The sender's own addresses.
    OwnAddrs,
    /// An address table.
    AddrTable,
    /// A chat message.
    Message,
    /// A heartbeat.
    Heartbeat,
    /// A typing notice.
    Typing,
    /// A database sync.
    DbSync,
    /// A request for our database.
    DbReq,
    /// The admin kicked this user.
    Kick(u64),
    /// Nothing to do.
    Ignore,
}

/// The route of a frame with `header` from `peer_id`, and whether the flood limit applies:
/// a joiner takes the chat only while it has none; a refusal and address packets are taken
/// in any state; chat traffic only within a chat; a kick only from the admin and only when
/// its body read as a user id (`kick`).
pub open spec fn route_of(header: u8, in_chat: bool, peer_id: u64, admin: Option<u64>, kick: Option<u64>) -> (Route, bool) {
    if header == NWP_HD && !in_chat {
        (Route::AcceptChat, false)
    } else if header == REJ_HD {
        (Route::Rejected, false)
    } else if header == OWN_HD {
        (Route::OwnAddrs, true)
    } else if header == AVP_HD {
        (Route::AddrTable, true)
    } else if !in_chat {
        (Route::Ignore, false)
    } else if header == MSG_HD {
        (Route::Message, true)
    } else if header == HBT_HD {
        (Route::Heartbeat, true)
    } else if header == TYP_HD {
        (Route::Typing, true)
    } else if header == DBS_HD {
        (Route::DbSync, true)
    } else if header == DBR_HD {
        (Route::DbReq, true)
    } else if header == KCK_HD {
        match kick {
            Some(uid) => if admin == Some(peer_id) {
                (Route::Kick(uid), true)
            } else {
                (Route::Ignore, false)
            },
            None => (Route::Ignore, false),
        }
    } else {
        (Route::Ignore, false)
    }
}

/// Routes a frame (`listen`): see `route_of`; where the flood limit applies, the packet is
/// counted and dropped (`Ignore`) when over the limit.
pub fn route(
    limiter: &mut RateLimiter,
    peer_id: u64,
    header: u8,
    in_chat: bool,
    admin: Option<u64>,
    kick: Option<u64>,
    now_ms: u64,
) -> (res: Route)
    requires
        old(limiter).wf(),
    ensures
        final(limiter).wf(),
        ({
            let (r, limited) = route_of(header, in_chat, peer_id, admin, kick);
            &&& !limited ==> res == r && final(limiter)@ == old(limiter)@
            &&& limited ==> res == (if accepts(old(limiter)@, peer_id, header, now_ms) { r } else { Route::Ignore })
                && counted(old(limiter)@, final(limiter)@, peer_id, header, now_ms)
        }),
{
    let (r, limited) = if header == NWP_HD && !in_chat {
        (Route::AcceptChat, false)
    } else if header == REJ_HD {
        (Route::Rejected, false)
    } else if header == OWN_HD {
        (Route::OwnAddrs, true)
    } else if header == AVP_HD {
        (Route::AddrTable, true)
    } else if !in_chat {
        (Route::Ignore, false)
    } else if header == MSG_HD {
        (Route::Message, true)
    } else if header == HBT_HD {
        (Route::Heartbeat, true)
    } else if header == TYP_HD {
        (Route::Typing, true)
    } else if header == DBS_HD {
        (Route::DbSync, true)
    } else if header == DBR_HD {
        (Route::DbReq, true)
    } else if header == KCK_HD {
        match kick {
            Some(uid) => if admin == Some(peer_id) {
                (Route::Kick(uid), true)
            } else {
                (Route::Ignore, false)
            },
            None => (Route::Ignore, false),
        }
    } else {
        (Route::Ignore, false)
    };
    if !limited {
        return r;
    }
    if limiter.recv_ok(peer_id, header, now_ms) {
        r
    } else {
        Route::Ignore
    }
}

/// How frames are routed. Within a chat, each kind of chat traffic goes to its handler:
/// messages, heartbeats, typing notices, database syncs and database requests; a chat's
/// snapshot is taken only by a node that has no chat yet. Outside a chat, only the join
/// answer, a refusal and address packets are acted on. A kick is acted on only when it comes
/// from the admin and names a user. The flood limit is applied only to packet types that have
/// a limit, and to every such type a peer sends within a chat (kicks from the admin included).
pub proof fn law_routes(header: u8, in_chat: bool, peer_id: u64, admin: Option<u64>, kick: Option<u64>)
    ensures
        ({
            let (r, limited) = route_of(header, in_chat, peer_id, admin, kick);
            &&& in_chat && header == MSG_HD ==> r == Route::Message
            &&& in_chat && header == HBT_HD ==> r == Route::Heartbeat
            &&& in_chat && header == TYP_HD ==> r == Route::Typing
            &&& in_chat && header == DBS_HD ==> r == Route::DbSync
            &&& in_chat && header == DBR_HD ==> r == Route::DbReq
            &&& header == NWP_HD ==> (r == Route::AcceptChat <==> !in_chat)
            &&& header == REJ_HD ==> r == Route::Rejected
            &&& header == OWN_HD ==> r == Route::OwnAddrs
            &&& header == AVP_HD ==> r == Route::AddrTable
            &&& !in_chat ==> (r == Route::AcceptChat || r == Route::Rejected || r == Route::OwnAddrs
                || r == Route::AddrTable || r == Route::Ignore)
            &&& r matches Route::Kick(u) ==> header == KCK_HD && in_chat && admin == Some(peer_id) && kick == Some(u)
            &&& in_chat && header == KCK_HD && admin == Some(peer_id) && kick is Some ==> r == Route::Kick(kick->0)
            &&& limited ==> limit_of(header) is Some
            &&& in_chat && limit_of(header) is Some && header != KCK_HD ==> limited
        }),
{
}

} // verus!
