//! Peers: their addresses, keys, identity checks and presence.
use vstd::prelude::*;
use crate::auth::{Authentication, Uid, User, derived_id, verifies};
use crate::crypto::{
    Key, hex_encoded, hkdf_sha256, x25519_public_key, x25519_shared_secret, hex_encode, hkdf_expand,
    random_secret, x25519_diffie_hellman, x25519_public,
};

verus! {

/// An IP address: IPv4 as its 32-bit value, IPv6 as its 128-bit value.
#[derive(Debug, Clone, Copy, PartialEq, Eq, Structural)]
pub enum IpAddress {
    V4(u32),
    V6(u128),
}

/// A socket address (IP and port; IPv6 addresses also carry flow info and scope id).
#[allow(inconsistent_fields)]
#[derive(Debug, Clone, Copy, PartialEq, Eq, Structural)]
pub enum SockAddr {
    V4 { ip: u32, port: u16 },
    V6 { ip: u128, port: u16, flowinfo: u32, scope_id: u32 },
}

/// 127.0.0.1 as a 32-bit value.
pub const LOCALHOST_V4: u32 = 0x7F00_0001;

/// The address made of an IP and a port (IPv6 with no flow info and scope 0).
pub open spec fn sock_of(ip: IpAddress, port: u16) -> SockAddr {
    match ip {
        IpAddress::V4(v) => SockAddr::V4 { ip: v, port },
        IpAddress::V6(v) => SockAddr::V6 { ip: v, port, flowinfo: 0, scope_id: 0 },
    }
}

/// The IP of an address.
pub open spec fn ip_of(a: SockAddr) -> IpAddress {
    match a {
        SockAddr::V4 { ip, .. } => IpAddress::V4(ip),
        SockAddr::V6 { ip, .. } => IpAddress::V6(ip),
    }
}

/// The port of an address.
pub open spec fn port_of(a: SockAddr) -> u16 {
    match a {
        SockAddr::V4 { port, .. } => port,
        SockAddr::V6 { port, .. } => port,
    }
}

impl SockAddr {
    /// The address made of an IP and a port.
    pub fn new(ip: IpAddress, port: u16) -> (res: Self)
        ensures
            res == sock_of(ip, port),
    {
        match ip {
            IpAddress::V4(v) => SockAddr::V4 { ip: v, port },
            IpAddress::V6(v) => SockAddr::V6 { ip: v, port, flowinfo: 0, scope_id: 0 },
        }
    }

    /// 127.0.0.1 at `port`.
    pub fn localhost(port: u16) -> (res: Self)
        ensures
            res == (SockAddr::V4 { ip: LOCALHOST_V4, port }),
    {
        SockAddr::V4 { ip: LOCALHOST_V4, port }
    }

    /// The IP of the address.
    pub fn ip(&self) -> (res: IpAddress)
        ensures
            res == ip_of(*self),
    {
        match self {
            SockAddr::V4 { ip, .. } => IpAddress::V4(*ip),
            SockAddr::V6 { ip, .. } => IpAddress::V6(*ip),
        }
    }

    /// The port of the address.
    pub fn port(&self) -> (res: u16)
        ensures
            res == port_of(*self),
    {
        match self {
            SockAddr::V4 { port, .. } => *port,
            SockAddr::V6 { port, .. } => *port,
        }
    }
}

/// A network interface of this machine as the operating system reports it.
#[derive(Debug, Clone)]
pub struct InterfaceInfo {
    pub name: String,
    pub ip: IpAddress,
    pub loopback: bool,
}

/// The interfaces of this machine (`if_addrs::get_if_addrs`); `None` when they cannot be
/// listed. What they are depends on the machine, so nothing is claimed of them.
#[verifier::external_body]
pub(crate) fn network_interfaces() -> (res: Option<Vec<InterfaceInfo>>) {
    let found = if_addrs::get_if_addrs().ok()?;
    let mut out = Vec::new();
    for i in found {
        let ip = match &i.addr {
            if_addrs::IfAddr::V4(a) => IpAddress::V4(u32::from(a.ip)),
            if_addrs::IfAddr::V6(a) => IpAddress::V6(u128::from(a.ip)),
        };
        out.push(InterfaceInfo { loopback: i.is_loopback(), name: i.name, ip });
    }
    Some(out)
}

/// Whether an IP is IPv4.
pub open spec fn is_v4(ip: IpAddress) -> bool {
    ip is V4
}

/// The IPv4 address of the first interface named `name` that has one.
pub open spec fn named_v4(ifs: Seq<InterfaceInfo>, name: Seq<char>) -> Option<IpAddress>
    decreases ifs.len(),
{
    if ifs.len() == 0 {
        None
    } else if ifs[0].name@ == name && is_v4(ifs[0].ip) {
        Some(ifs[0].ip)
    } else {
        named_v4(ifs.drop_first(), name)
    }
}

/// The first IPv4 address of a non-loopback interface.
pub open spec fn lan_v4(ifs: Seq<InterfaceInfo>) -> Option<IpAddress>
    decreases ifs.len(),
{
    if ifs.len() == 0 {
        None
    } else if is_v4(ifs[0].ip) && !ifs[0].loopback {
        Some(ifs[0].ip)
    } else {
        lan_v4(ifs.drop_first())
    }
}

/// The IP to bind: the IPv4 address of the first interface named `iface` that has one, else
/// the first IPv4 address of a non-loopback interface.
pub open spec fn chosen_bind_ip(ifs: Seq<InterfaceInfo>, iface: Option<Seq<char>>) -> Option<IpAddress> {
    match iface {
        Some(name) => match named_v4(ifs, name) {
            Some(ip) => Some(ip),
            None => lan_v4(ifs),
        },
        None => lan_v4(ifs),
    }
}

/// The text of an optional string slice.
pub open spec fn opt_text(o: Option<&str>) -> Option<Seq<char>> {
    match o {
        Some(s) => Some(s@),
        None => None,
    }
}

/// With no interfaces listed, no IP is chosen.
proof fn lemma_chosen_of_none(iface: Option<Seq<char>>)
    ensures
        chosen_bind_ip(Seq::<InterfaceInfo>::empty(), iface) is None,
{
    reveal_with_fuel(named_v4, 2);
    reveal_with_fuel(lan_v4, 2);
}

/// This machine's two candidate addresses for `port` when it lists the interfaces `ifs`:
/// loopback, then the address `bind_ip` chooses among them; none without such an address.
pub open spec fn addrs_among(ifs: Seq<InterfaceInfo>, port: u16) -> Result<[SockAddr; 2], AddrError> {
    match chosen_bind_ip(ifs, None) {
        None => Err(AddrError::NoInterface),
        Some(lan) => Ok([SockAddr::V4 { ip: LOCALHOST_V4, port }, sock_of(lan, port)]),
    }
}

/// Whatever interfaces there are, the IP chosen to bind is IPv4.
proof fn lemma_chosen_is_v4(ifs: Seq<InterfaceInfo>, iface: Option<Seq<char>>)
    ensures
        chosen_bind_ip(ifs, iface) matches Some(ip) ==> is_v4(ip),
    decreases ifs.len(),
{
    if ifs.len() > 0 {
        lemma_chosen_is_v4(ifs.drop_first(), iface);
        lemma_chosen_is_v4(ifs.drop_first(), None);
    }
}

/// Picks the IP to bind from a list of interfaces (see `chosen_bind_ip`).
pub fn choose_bind_ip(ifs: &Vec<InterfaceInfo>, iface: Option<&str>) -> (res: Option<IpAddress>)
    ensures
        res == chosen_bind_ip(ifs@, opt_text(iface)),
{
    if let Some(name) = iface {
        let wanted = name.to_owned();
        let mut i: usize = 0;
        assert(ifs@.skip(0) =~= ifs@);
        while i < ifs.len()
            invariant
                i <= ifs@.len(),
                wanted@ == name@,
                opt_text(iface) == Some(name@),
                named_v4(ifs@, name@) == named_v4(ifs@.skip(i as int), name@),
            decreases ifs@.len() - i,
        {
            assert(ifs@.skip(i as int).drop_first() =~= ifs@.skip(i + 1));
            assert(ifs@.skip(i as int)[0] == ifs@[i as int]);
            if ifs[i].name == wanted && ifs[i].ip.is_v4() {
                assert(named_v4(ifs@.skip(i as int), name@) == Some(ifs@[i as int].ip));
                let ip = ifs[i].ip;
                assert(ip == ifs@[i as int].ip);
                return Some(ip);
            }
            i = i + 1;
        }
    }
    let mut i: usize = 0;
    assert(ifs@.skip(0) =~= ifs@);
    while i < ifs.len()
        invariant
            i <= ifs@.len(),
            iface matches Some(n) ==> named_v4(ifs@, n@) is None,
            lan_v4(ifs@) == lan_v4(ifs@.skip(i as int)),
        decreases ifs@.len() - i,
    {
        assert(ifs@.skip(i as int).drop_first() =~= ifs@.skip(i + 1));
        assert(ifs@.skip(i as int)[0] == ifs@[i as int]);
        if ifs[i].ip.is_v4() && !ifs[i].loopback {
            return Some(ifs[i].ip);
        }
        i = i + 1;
    }
    None
}

impl IpAddress {
    /// Whether the address is IPv4.
    pub fn is_v4(&self) -> (res: bool)
        ensures
            res == is_v4(*self),
    {
        match self {
            IpAddress::V4(_) => true,
            IpAddress::V6(_) => false,
        }
    }
}

/// The interfaces offered for picking (`interfaces`): the IPv4 ones that are not loopback, in
/// order, by name and address.
pub open spec fn pickable(ifs: Seq<InterfaceInfo>) -> Seq<(Seq<char>, IpAddress)>
    decreases ifs.len(),
{
    if ifs.len() == 0 {
        Seq::empty()
    } else {
        let rest = pickable(ifs.drop_last());
        let i = ifs.last();
        if is_v4(i.ip) && !i.loopback {
            rest.push((i.name@, i.ip))
        } else {
            rest
        }
    }
}

/// The interfaces offered for picking (see `pickable`).
pub fn pickable_interfaces(ifs: &Vec<InterfaceInfo>) -> (res: Vec<(String, IpAddress)>)
    ensures
        res@.map_values(|p: (String, IpAddress)| (p.0@, p.1)) == pickable(ifs@),
{
    let mut out: Vec<(String, IpAddress)> = Vec::new();
    let mut i: usize = 0;
    while i < ifs.len()
        invariant
            i <= ifs@.len(),
            out@.map_values(|p: (String, IpAddress)| (p.0@, p.1)) == pickable(ifs@.take(i as int)),
        decreases ifs@.len() - i,
    {
        assert(ifs@.take(i + 1).drop_last() =~= ifs@.take(i as int));
        if ifs[i].ip.is_v4() && !ifs[i].loopback {
            let name = ifs[i].name.clone();
            out.push((name, ifs[i].ip));
            assert(out@.map_values(|p: (String, IpAddress)| (p.0@, p.1)) =~= pickable(ifs@.take(i as int)).push(
                (ifs@[i as int].name@, ifs@[i as int].ip),
            ));
        }
        i = i + 1;
    }
    assert(ifs@.take(i as int) =~= ifs@);
    out
}

/// The interfaces of this machine offered for picking (`interfaces`): those `pickable` among
/// what the machine lists (none when it lists nothing).
pub fn offered_interfaces() -> (res: Vec<(String, IpAddress)>)
    ensures
        exists|ifs: Seq<InterfaceInfo>| res@.map_values(|p: (String, IpAddress)| (p.0@, p.1)) == #[trigger] pickable(ifs),
{
    match network_interfaces() {
        Some(ifs) => pickable_interfaces(&ifs),
        None => {
            let none: Vec<(String, IpAddress)> = Vec::new();
            assert(none@.map_values(|p: (String, IpAddress)| (p.0@, p.1)) =~= pickable(Seq::<InterfaceInfo>::empty()));
            none
        },
    }
}

/// The name of the first interface with address `ip`.
pub open spec fn name_with_ip(ifs: Seq<InterfaceInfo>, ip: IpAddress) -> Option<Seq<char>>
    decreases ifs.len(),
{
    if ifs.len() == 0 {
        None
    } else if ifs[0].ip == ip {
        Some(ifs[0].name@)
    } else {
        name_with_ip(ifs.drop_first(), ip)
    }
}

/// The name of this machine's interface with address `ip` (see `name_with_ip`), among what the
/// machine lists (`refresh_addrs`).
pub fn interface_with(ip: IpAddress) -> (res: Option<String>)
    ensures
        exists|ifs: Seq<InterfaceInfo>| opt_string_view(res) == #[trigger] name_with_ip(ifs, ip),
{
    let ifs = match network_interfaces() {
        Some(v) => v,
        None => {
            assert(name_with_ip(Seq::<InterfaceInfo>::empty(), ip) is None);
            return None;
        },
    };
    let mut i: usize = 0;
    assert(ifs@.skip(0) =~= ifs@);
    while i < ifs.len()
        invariant
            i <= ifs@.len(),
            name_with_ip(ifs@.skip(i as int), ip) == name_with_ip(ifs@, ip),
        decreases ifs@.len() - i,
    {
        assert(ifs@.skip(i as int).drop_first() =~= ifs@.skip(i + 1));
        if ifs[i].ip == ip {
            let name = ifs[i].name.clone();
            assert(opt_string_view(Some(name)) == name_with_ip(ifs@, ip));
            return Some(name);
        }
        i = i + 1;
    }
    None
}

/// The text of an optional string.
pub open spec fn opt_string_view(o: Option<String>) -> Option<Seq<char>> {
    match o {
        Some(s) => Some(s@),
        None => None,
    }
}

/// The IP to bind for the chosen interface `iface` (by name), else the first non-loopback
/// IPv4 address of this machine (`bind_ip`). Whatever the machine reports, an IP found is IPv4.
pub fn bind_ip(iface: Option<&str>) -> (res: Option<IpAddress>)
    ensures
        res matches Some(ip) ==> is_v4(ip),
        exists|ifs: Seq<InterfaceInfo>| res == #[trigger] chosen_bind_ip(ifs, opt_text(iface)),
{
    let ifs = match network_interfaces() {
        Some(v) => v,
        None => {
            assert(chosen_bind_ip(Seq::<InterfaceInfo>::empty(), opt_text(iface)) is None) by {
                lemma_chosen_of_none(opt_text(iface));
            }
            return None;
        },
    };
    let res = choose_bind_ip(&ifs, iface);
    proof {
        lemma_chosen_is_v4(ifs@, opt_text(iface));
    }
    res
}

/// Why this machine's addresses could not be found.
#[derive(Debug, Clone, Copy, PartialEq, Eq, Structural)]
pub enum AddrError {
    /// No usable network interface.
    NoInterface,
}

/// This machine's two candidate addresses for `port` (`local_addrs`): loopback, then the
/// LAN address of the interface `bind_ip` picks.
pub fn local_addrs(port: u16) -> (res: Result<[SockAddr; 2], AddrError>)
    ensures
        res matches Ok(a) ==> a[0] == (SockAddr::V4 { ip: LOCALHOST_V4, port }) && port_of(a[1]) == port
            && a[1] is V4,
        exists|ifs: Seq<InterfaceInfo>| res == #[trigger] addrs_among(ifs, port),
{
    let chosen = bind_ip(None);
    proof {
        let ifs = choose|ifs: Seq<InterfaceInfo>| chosen == #[trigger] chosen_bind_ip(ifs, opt_text(None));
        assert(chosen == chosen_bind_ip(ifs, None));
        assert(addrs_among(ifs, port) == (match chosen {
            None => Err::<[SockAddr; 2], AddrError>(AddrError::NoInterface),
            Some(lan) => Ok([SockAddr::V4 { ip: LOCALHOST_V4, port }, sock_of(lan, port)]),
        }));
    }
    match chosen {
        None => Err(AddrError::NoInterface),
        Some(lan) => Ok([SockAddr::localhost(port), SockAddr::new(lan, port)]),
    }
}

/// The HKDF `info` that derives channel keys: the bytes of `fallegji`.
pub open spec fn key_info() -> Seq<u8> {
    seq![102u8, 97u8, 108u8, 108u8, 101u8, 103u8, 106u8, 105u8]
}

/// The key of the channel between the holder of `secret` and the owner of `public`:
/// HKDF-SHA256 of their X25519 shared secret, with info `fallegji`.
pub open spec fn channel_key(secret: Seq<u8>, public: Seq<u8>) -> Seq<u8> {
    hkdf_sha256(x25519_shared_secret(secret, public), key_info())
}

/// Why a peer could not be made or changed.
#[derive(Debug, Clone, Copy, PartialEq, Eq, Structural)]
pub enum PeerError {
    /// No usable network interface for the peer's addresses.
    NoInterface,
    /// The operating system gave no randomness for a key.
    NoRandomness,
    /// The user id does not match the key, name and account id.
    InvalidKeyOrUser,
    /// The peer is already linked to a user.
    UserIdAlreadySet,
}

/// What a peer looks like to a contract.
pub struct PeerView {
    pub id: i32,
    pub user_id: Option<u64>,
    pub addrs: [SockAddr; 2],
    pub pubkey: Seq<u8>,
    pub last_heartbeat: Option<i64>,
    pub last_seen_typing: Option<i64>,
}

/// A peer of the chat: its database row id, its user (once linked), its two addresses
/// (loopback, LAN), its X25519 public key and when it was last heard from.
#[derive(Debug, Clone, Copy)]
pub struct Peer {
    id: i32,
    user_id: Option<u64>,
    addrs: [SockAddr; 2],
    pubkey: [u8; 32],
    last_heartbeat: Option<i64>,
    last_seen_typing: Option<i64>,
}

impl View for Peer {
    type V = PeerView;

    closed spec fn view(&self) -> PeerView {
        PeerView {
            id: self.id,
            user_id: self.user_id,
            addrs: self.addrs,
            pubkey: self.pubkey@,
            last_heartbeat: self.last_heartbeat,
            last_seen_typing: self.last_seen_typing,
        }
    }
}

/// Whether a peer heard from at `last_heartbeat` (Unix seconds) counts as online at `now`:
/// within the last three seconds.
pub open spec fn online_at(last_heartbeat: Option<i64>, now_secs: i64) -> bool {
    match last_heartbeat {
        Some(t) => t + 3 > now_secs,
        None => false,
    }
}

/// Whether a peer that typed at `last_seen_typing` (Unix seconds) counts as typing at
/// `now_secs`: within the last second, whether or not its heartbeat is recent.
pub open spec fn typing_at(last_seen_typing: Option<i64>, now_secs: i64) -> bool {
    match last_seen_typing {
        Some(t) => t + 1 > now_secs,
        None => false,
    }
}

/// The public key that goes with a secret (`PublicKey::from(&secret)`).
pub fn public_key(secret: &[u8; 32]) -> (res: [u8; 32])
    ensures
        res@ == x25519_public_key(secret@),
{
    x25519_public(secret)
}

/// Key generation and agreement.
pub trait KeyGen {
    /// A fresh key pair: public key, secret.
    fn keypairgen() -> (res: Result<([u8; 32], [u8; 32]), PeerError>)
        ensures
            res matches Ok((public, secret)) ==> public@ == x25519_public_key(secret@),
            res matches Err(e) ==> e == PeerError::NoRandomness,
    ;

    /// The key of the channel between the holder of `prvkey` and this peer.
    fn shrdkeygen(&self, prvkey: [u8; 32]) -> Key;
}

impl KeyGen for Peer {
    fn keypairgen() -> (res: Result<([u8; 32], [u8; 32]), PeerError>) {
        match random_secret() {
            None => Err(PeerError::NoRandomness),
            Some(secret) => {
                let public = x25519_public(&secret);
                Ok((public, secret))
            },
        }
    }

    /// The channel key derived from `prvkey` and this peer's public key. Both ends derive the
    /// same key: if this peer's public key belongs to the secret `other`, the result is the key
    /// `other` derives with the public key of `prvkey`.
    fn shrdkeygen(&self, prvkey: [u8; 32]) -> (res: Key)
        ensures
            res@ == channel_key(prvkey@, self@.pubkey),
            forall|other: Seq<u8>|
                #[trigger] x25519_public_key(other) == self@.pubkey ==> res@ == channel_key(
                    other,
                    x25519_public_key(prvkey@),
                ),
    {
        let shared = x25519_diffie_hellman(&prvkey, &self.pubkey);
        let info: [u8; 8] = [102u8, 97u8, 108u8, 108u8, 101u8, 103u8, 106u8, 105u8];
        assert(info@ =~= key_info());
        hkdf_expand(&shared, info.as_slice())
    }
}

impl Peer {
    /// A peer from its parts, as the chat assembles one it already knows.
    pub fn from_parts(
        id: i32,
        user_id: Option<u64>,
        addrs: [SockAddr; 2],
        pubkey: [u8; 32],
        last_heartbeat: Option<i64>,
        last_seen_typing: Option<i64>,
    ) -> (res: Self)
        ensures
            res@ == (PeerView { id, user_id, addrs, pubkey: pubkey@, last_heartbeat, last_seen_typing }),
    {
        Peer { id, user_id, addrs, pubkey, last_heartbeat, last_seen_typing }
    }

    /// A new local peer (`new_out`): this machine's addresses for `port`, a fresh key pair, no
    /// user yet, never heard from. Returns the peer and its secret.
    pub fn new_out(id: i32, port: u16) -> (res: Result<(Self, [u8; 32]), PeerError>)
        ensures
            res matches Ok((p, secret)) ==> {
                &&& p@.id == id
                &&& p@.user_id is None
                &&& p@.addrs[0] == (SockAddr::V4 { ip: LOCALHOST_V4, port })
                &&& port_of(p@.addrs[1]) == port
                &&& p@.pubkey == x25519_public_key(secret@)
                &&& p@.last_heartbeat is None
                &&& p@.last_seen_typing is None
            },
            res matches Ok((p, secret)) ==> exists|ifs: Seq<InterfaceInfo>| #[trigger] addrs_among(ifs, port) == Ok::<
                [SockAddr; 2],
                AddrError,
            >(p@.addrs),
            res matches Err(e) ==> e == PeerError::NoInterface || e == PeerError::NoRandomness,
    {
        let found = local_addrs(port);
        let addrs = match found {
            Ok(a) => a,
            Err(_) => return Err(PeerError::NoInterface),
        };
        proof {
            let ifs = choose|ifs: Seq<InterfaceInfo>| found == #[trigger] addrs_among(ifs, port);
            assert(addrs_among(ifs, port) == Ok::<[SockAddr; 2], AddrError>(addrs));
        }
        let (pubkey, secret) = match Self::keypairgen() {
            Ok(k) => k,
            Err(e) => return Err(e),
        };
        Ok((Peer { id, user_id: None, addrs, pubkey, last_heartbeat: None, last_seen_typing: None }, secret))
    }

    /// An imported peer (`new_in`), accepted only when `peer_user_id` is the id derived from
    /// its public key (in hex), `peer_name` and `peer_uid`.
    pub fn new_in(
        id: i32,
        peer_name: String,
        peer_uid: Uid,
        peer_user_id: u64,
        addrs: [SockAddr; 2],
        pubkey: [u8; 32],
        last_seen_typing: Option<i64>,
        last_heartbeat: Option<i64>,
    ) -> (res: Result<Self, PeerError>)
        ensures
            res is Ok <==> derived_id(hex_encoded(pubkey@), peer_name@, peer_uid@) == peer_user_id,
            res matches Ok(p) ==> p@ == (PeerView {
                id,
                user_id: Some(peer_user_id),
                addrs,
                pubkey: pubkey@,
                last_heartbeat,
                last_seen_typing,
            }),
            res matches Err(e) ==> e == PeerError::InvalidKeyOrUser,
    {
        let key = hex_encode(pubkey.as_slice());
        let user = User::new(key.clone(), peer_name, peer_uid);
        if user.ver_id(key, peer_user_id) {
            Ok(Peer { id, user_id: Some(peer_user_id), addrs, pubkey, last_heartbeat, last_seen_typing })
        } else {
            Err(PeerError::InvalidKeyOrUser)
        }
    }

    /// Whether the peer is online now (heard from within the last three seconds).
    pub fn is_online(&self) -> (res: bool)
        ensures
            self@.last_heartbeat is None ==> !res,
            exists|now_secs: i64| res == #[trigger] online_at(self@.last_heartbeat, now_secs),
    {
        let now = crate::clock::system_secs_now();
        let res = self.is_online_at(now);
        assert(res == online_at(self@.last_heartbeat, now));
        res
    }

    /// Whether the peer counts as online at `now_secs` (see `online_at`).
    pub fn is_online_at(&self, now_secs: i64) -> (res: bool)
        ensures
            res == online_at(self@.last_heartbeat, now_secs),
    {
        match self.last_heartbeat {
            Some(t) => t as i128 + 3 > now_secs as i128,
            None => false,
        }
    }

    /// Whether the peer is typing now: it typed within the last second (whatever its
    /// heartbeat).
    pub fn is_typing(&self) -> (res: bool)
        ensures
            self@.last_seen_typing is None ==> !res,
            exists|now_secs: i64| res == #[trigger] typing_at(self@.last_seen_typing, now_secs),
    {
        let now_secs = crate::clock::system_secs_now();
        let res = self.is_typing_at(now_secs);
        assert(res == typing_at(self@.last_seen_typing, now_secs));
        res
    }

    /// Whether the peer counts as typing at `now_secs` (see `typing_at`).
    pub fn is_typing_at(&self, now_secs: i64) -> (res: bool)
        ensures
            res == typing_at(self@.last_seen_typing, now_secs),
    {
        match self.last_seen_typing {
            Some(t) => t as i128 + 1 > now_secs as i128,
            None => false,
        }
    }

    /// The peer's database row id.
    pub fn get_id(&self) -> (res: i32)
        ensures
            res == self@.id,
    {
        self.id
    }

    /// The user the peer is linked to, if any.
    pub fn get_user_id(&self) -> (res: Option<u64>)
        ensures
            res == self@.user_id,
    {
        self.user_id
    }

    /// The peer's two addresses: loopback, LAN.
    pub fn get_addrs(&self) -> (res: [SockAddr; 2])
        ensures
            res == self@.addrs,
    {
        self.addrs
    }

    /// The peer's LAN address.
    pub fn get_addr(&self) -> (res: SockAddr)
        ensures
            res == self@.addrs[1],
    {
        self.addrs[1]
    }

    /// The peer's public key.
    pub fn get_pubkey(&self) -> (res: [u8; 32])
        ensures
            res@ == self@.pubkey,
    {
        self.pubkey
    }

    /// When the peer was last heard from (Unix seconds).
    pub fn get_last_heartbeat(&self) -> (res: Option<i64>)
        ensures
            res == self@.last_heartbeat,
    {
        self.last_heartbeat
    }

    /// When the peer was last seen typing (Unix seconds).
    pub fn get_last_seen_typing(&self) -> (res: Option<i64>)
        ensures
            res == self@.last_seen_typing,
    {
        self.last_seen_typing
    }

    /// Sets the row id, only while the peer has none yet (a negative id).
    pub fn set_id(&mut self, id: i32)
        ensures
            final(self)@ == (PeerView { id: if old(self)@.id < 0 { id } else { old(self)@.id }, ..old(self)@ }),
    {
        if self.id < 0 {
            self.id = id;
        }
    }

    /// Links the peer to its user, once: refused when it is already linked, or when `user_id`
    /// is not the id derived from its public key, `user_name` and `user_uid`.
    pub fn set_user_id(&mut self, user_name: String, user_id: u64, user_uid: Uid) -> (res: Result<(), PeerError>)
        ensures
            old(self)@.user_id is Some ==> res == Err::<(), PeerError>(PeerError::UserIdAlreadySet),
            old(self)@.user_id is None && derived_id(hex_encoded(old(self)@.pubkey), user_name@, user_uid@) != user_id
                ==> res == Err::<(), PeerError>(PeerError::InvalidKeyOrUser),
            res is Ok <==> (old(self)@.user_id is None && derived_id(hex_encoded(old(self)@.pubkey), user_name@, user_uid@) == user_id),
            final(self)@ == if res is Ok {
                PeerView { user_id: Some(user_id), ..old(self)@ }
            } else {
                old(self)@
            },
    {
        if self.user_id.is_some() {
            return Err(PeerError::UserIdAlreadySet);
        }
        let key = hex_encode(self.pubkey.as_slice());
        let user = User::new(key.clone(), user_name, user_uid);
        if !user.ver_id(key, user_id) {
            return Err(PeerError::InvalidKeyOrUser);
        }
        self.user_id = Some(user_id);
        Ok(())
    }

    /// Replaces both addresses.
    pub fn set_addrs(&mut self, addrs: [SockAddr; 2])
        ensures
            final(self)@ == (PeerView { addrs, ..old(self)@ }),
    {
        self.addrs = addrs;
    }

    /// Records when the peer was last seen typing.
    pub fn set_last_seen_typing(&mut self, last_seen_typing: Option<i64>)
        ensures
            final(self)@ == (PeerView { last_seen_typing, ..old(self)@ }),
    {
        self.last_seen_typing = last_seen_typing;
    }

    /// Records when the peer was last heard from.
    pub fn set_last_heartbeat(&mut self, last_heartbeat: Option<i64>)
        ensures
            final(self)@ == (PeerView { last_heartbeat, ..old(self)@ }),
    {
        self.last_heartbeat = last_heartbeat;
    }
}

/// The two addresses a list of parsed addresses stands for (`parse_addrs`): two give the pair,
/// one is repeated, any other count gives nothing.
pub fn addr_pair(parsed: &Vec<SockAddr>) -> (res: Option<[SockAddr; 2]>)
    ensures
        parsed@.len() == 2 ==> res == Some([parsed@[0], parsed@[1]]),
        parsed@.len() == 1 ==> res == Some([parsed@[0], parsed@[0]]),
        parsed@.len() != 1 && parsed@.len() != 2 ==> res is None,
{
    if parsed.len() == 2 {
        Some([parsed[0], parsed[1]])
    } else if parsed.len() == 1 {
        Some([parsed[0], parsed[0]])
    } else {
        None
    }
}

} // verus!
