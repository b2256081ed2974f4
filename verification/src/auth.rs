//! Identities: roles, machine user ids and chat users.
//!
//! A user's id is derived from its public key, its name and the account id of the machine
//! it runs on, so anyone holding those three can check an id without a server.
use vstd::prelude::*;
use vstd::utf8::encode_utf8;
use vstd::string::StringSliceAdditionalSpecFns;
use crate::crypto::{hex_encode, hex_encoded, sha256, sha256_digest};

verus! {

/// A member's standing in a chat.
#[derive(Clone, Copy, Debug, PartialEq, Eq, Structural)]
pub enum Role {
    Admin,
    Member,
}

/// Why a role could not be read from text.
#[derive(Clone, Copy, Debug, PartialEq, Eq, Structural)]
pub enum RoleError {
    /// The text names no role.
    InvalidRole,
}

/// The text of a role, as stored and shown.
pub open spec fn role_text(r: Role) -> Seq<char> {
    match r {
        Role::Admin => seq!['a', 'd', 'm', 'i', 'n'],
        Role::Member => seq!['m', 'e', 'm', 'b', 'e', 'r'],
    }
}

/// The ASCII lower-case form of a character (other characters are unchanged).
pub open spec fn ascii_lower(c: char) -> char {
    if 'A' <= c <= 'Z' {
        ((c as u32) + 32) as char
    } else {
        c
    }
}

/// Whether `s` spells `word` when ASCII letters are compared without regard to case.
pub open spec fn same_ignoring_case(s: Seq<char>, word: Seq<char>) -> bool {
    s.len() == word.len() && forall|i: int| 0 <= i < s.len() ==> #[trigger] ascii_lower(s[i]) == word[i]
}

/// The role a text names, compared without regard to case.
pub open spec fn parsed_role(s: Seq<char>) -> Result<Role, RoleError> {
    if same_ignoring_case(s, role_text(Role::Admin)) {
        Ok(Role::Admin)
    } else if same_ignoring_case(s, role_text(Role::Member)) {
        Ok(Role::Member)
    } else {
        Err(RoleError::InvalidRole)
    }
}

impl Role {
    /// The text of the role: `admin` or `member`.
    pub fn to_string(&self) -> (res: String)
        ensures
            res@ == role_text(*self),
    {
        match self {
            Role::Admin => {
                let s = "admin";
                proof {
                    reveal_strlit("admin");
                }
                s.to_owned()
            },
            Role::Member => {
                let s = "member";
                proof {
                    reveal_strlit("member");
                }
                s.to_owned()
            },
        }
    }

    /// Reads a role from its text without regard to case (`"MEMBER"` is a member); any other
    /// text is refused. (Lower-casing the text and comparing, as the chat describes it, accepts
    /// exactly these spellings: no other character lower-cases to one of these letters.)
    pub fn from_str(s: &str) -> (res: Result<Role, RoleError>)
        ensures
            res == parsed_role(s@),
    {
        let admin = "admin";
        let member = "member";
        proof {
            reveal_strlit("admin");
            reveal_strlit("member");
        }
        if equals_ignoring_case(s, admin) {
            Ok(Role::Admin)
        } else if equals_ignoring_case(s, member) {
            Ok(Role::Member)
        } else {
            Err(RoleError::InvalidRole)
        }
    }
}

impl core::str::FromStr for Role {
    type Err = RoleError;

    fn from_str(s: &str) -> (res: Result<Role, RoleError>)
        ensures
            res == parsed_role(s@),
    {
        Role::from_str(s)
    }
}

/// A role's text reads back as that role, and the two texts name different roles.
pub proof fn law_role_text_reads_back(r: Role)
    ensures
        parsed_role(role_text(r)) == Ok::<Role, RoleError>(r),
{
    let a = role_text(Role::Admin);
    let m = role_text(Role::Member);
    assert(forall|i: int| 0 <= i < a.len() ==> #[trigger] ascii_lower(a[i]) == a[i]);
    assert(forall|i: int| 0 <= i < m.len() ==> #[trigger] ascii_lower(m[i]) == m[i]);
    assert(!same_ignoring_case(m, a));
}

/// Compares `s` with a lower-case `word`, ASCII letters without regard to case.
fn equals_ignoring_case(s: &str, word: &str) -> (res: bool)
    ensures
        res == same_ignoring_case(s@, word@),
{
    let n = s.unicode_len();
    if n != word.unicode_len() {
        return false;
    }
    let mut i: usize = 0;
    while i < n
        invariant
            n == s@.len(),
            n == word@.len(),
            i <= n,
            forall|j: int| 0 <= j < i ==> #[trigger] ascii_lower(s@[j]) == word@[j],
        decreases n - i,
    {
        let c = s.get_char(i);
        let lower = if 'A' <= c && c <= 'Z' {
            char_from_upper(c)
        } else {
            c
        };
        if lower != word.get_char(i) {
            assert(ascii_lower(s@[i as int]) != word@[i as int]);
            return false;
        }
        i = i + 1;
    }
    true
}

/// The lower-case letter of an upper-case ASCII letter.
pub(crate) fn char_from_upper(c: char) -> (res: char)
    requires
        'A' <= c <= 'Z',
    ensures
        res == ascii_lower(c),
{
    let letters = "abcdefghijklmnopqrstuvwxyz";
    proof {
        reveal_strlit("abcdefghijklmnopqrstuvwxyz");
    }
    let idx: usize = (c as u32 - 65) as usize;
    letters.get_char(idx)
}

/// The numeric id of the operating-system account that runs the chat.
#[derive(Debug, Clone, Copy, PartialEq, Eq, Structural)]
pub struct Uid(u32);

impl View for Uid {
    type V = u32;

    closed spec fn view(&self) -> u32 {
        self.0
    }
}

impl Uid {
    /// Wraps a raw account id.
    pub fn from(uid: u32) -> (res: Self)
        ensures
            res@ == uid,
    {
        Uid(uid)
    }

    /// The raw account id.
    pub fn as_raw(&self) -> (res: u32)
        ensures
            res == self@,
    {
        self.0
    }
}

/// The ASCII decimal digits of `n`, most significant first, with no leading zeros.
pub open spec fn decimal(n: nat) -> Seq<u8>
    decreases n,
{
    if n < 10 {
        seq![(48 + n) as u8]
    } else {
        decimal(n / 10) + seq![(48 + n % 10) as u8]
    }
}

/// The ASCII decimal digits of `n` (`n.to_string()` as bytes).
pub fn decimal_ascii(n: u32) -> (res: Vec<u8>)
    ensures
        res@ == decimal(n as nat),
    decreases n,
{
    if n < 10 {
        let mut v: Vec<u8> = Vec::new();
        v.push((48 + n) as u8);
        assert(v@ =~= decimal(n as nat));
        v
    } else {
        let mut v = decimal_ascii(n / 10);
        v.push((48 + n % 10) as u8);
        assert(v@ =~= decimal(n as nat));
        v
    }
}

/// The bytes hashed for a user id: the UTF-8 of the key, then of the name, then the decimal
/// account id.
pub open spec fn id_material(key: Seq<char>, name: Seq<char>, uid: u32) -> Seq<u8> {
    encode_utf8(key) + encode_utf8(name) + decimal(uid as nat)
}

/// The value of the eight bytes of `d` starting at `at`, read big-endian.
pub open spec fn be_u64_at(d: Seq<u8>, at: int) -> u64 {
    (d[at] as int * 0x100_0000_0000_0000 + d[at + 1] as int * 0x1_0000_0000_0000 + d[at + 2] as int
        * 0x100_0000_0000 + d[at + 3] as int * 0x1_0000_0000 + d[at + 4] as int * 0x100_0000
        + d[at + 5] as int * 0x1_0000 + d[at + 6] as int * 0x100 + d[at + 7] as int) as u64
}

/// Folds a 32-byte digest into a u64: the exclusive-or of its four big-endian 8-byte chunks.
pub open spec fn fold_digest(d: Seq<u8>) -> u64 {
    be_u64_at(d, 0) ^ be_u64_at(d, 8) ^ be_u64_at(d, 16) ^ be_u64_at(d, 24)
}

/// The id of the user with this key, name and account id.
pub open spec fn derived_id(key: Seq<char>, name: Seq<char>, uid: u32) -> u64 {
    fold_digest(sha256(id_material(key, name, uid)))
}

/// Reads the big-endian u64 at `at` in a digest.
fn be_u64(d: &[u8; 32], at: usize) -> (res: u64)
    requires
        at + 8 <= 32,
    ensures
        res == be_u64_at(d@, at as int),
{
    let b0 = d[at] as u64;
    let b1 = d[at + 1] as u64;
    let b2 = d[at + 2] as u64;
    let b3 = d[at + 3] as u64;
    let b4 = d[at + 4] as u64;
    let b5 = d[at + 5] as u64;
    let b6 = d[at + 6] as u64;
    let b7 = d[at + 7] as u64;
    b0 * 0x100_0000_0000_0000 + b1 * 0x1_0000_0000_0000 + b2 * 0x100_0000_0000 + b3 * 0x1_0000_0000 + b4
        * 0x100_0000 + b5 * 0x1_0000 + b6 * 0x100 + b7
}

/// What a user looks like to a contract: id, name, role and account id.
pub struct UserView {
    pub id: u64,
    pub name: Seq<char>,
    pub role: Option<Role>,
    pub uid: u32,
}

/// A chat user.
#[derive(Debug, Clone)]
pub struct User {
    id: u64,
    name: String,
    role: Option<Role>,
    uid: Uid,
}

impl View for User {
    type V = UserView;

    closed spec fn view(&self) -> UserView {
        UserView { id: self.id, name: self.name@, role: self.role, uid: self.uid@ }
    }
}

/// Whether `user` is the user that `key` and `user_id` claim: its id is the one derived from
/// `key`, its name and its account id, and equals `user_id`.
pub open spec fn verifies(user: UserView, key: Seq<char>, user_id: u64) -> bool {
    derived_id(key, user.name, user.uid) == user.id && user.id == user_id
}

/// Deriving and checking user ids.
pub trait Authentication {
    /// The id of the user with this key (the peer's public key, in hex), name and account id.
    fn gen_id(key: String, name: &str, uid: Uid) -> (res: u64)
        ensures
            res == derived_id(key@, name@, uid@),
    ;

    /// Whether this user is the one that `key` and `user_id` claim (see `verifies`).
    fn ver_id(&self, key: String, user_id: u64) -> bool;
}

impl Authentication for User {
    fn gen_id(key: String, name: &str, uid: Uid) -> (res: u64) {
        let mut material: Vec<u8> = Vec::new();
        crate::connection::frame::append_bytes(&mut material, key.as_str().as_bytes());
        crate::connection::frame::append_bytes(&mut material, name.as_bytes());
        let digits = decimal_ascii(uid.as_raw());
        crate::connection::frame::append_bytes(&mut material, digits.as_slice());
        assert(material@ =~= id_material(key@, name@, uid@));
        let d = sha256_digest(material.as_slice());
        let id = be_u64(&d, 0) ^ be_u64(&d, 8) ^ be_u64(&d, 16) ^ be_u64(&d, 24);
        id
    }

    fn ver_id(&self, key: String, user_id: u64) -> (res: bool)
        ensures
            res == verifies(self@, key@, user_id),
    {
        let id = Self::gen_id(key, self.name.as_str(), self.uid);
        id == self.id && id == user_id
    }
}

impl User {
    /// A user whose id is derived from `key`, `name` and `uid`; it has no role yet.
    pub fn new(key: String, name: String, uid: Uid) -> (res: Self)
        ensures
            res@.id == derived_id(key@, name@, uid@),
            res@.name == name@,
            res@.role is None,
            res@.uid == uid@,
    {
        let id = Self::gen_id(key, name.as_str(), uid);
        User { id, name, role: None, uid }
    }

    /// The system user that posts notices: id 0, named `System`, account 0, no role.
    pub fn sys() -> (res: Self)
        ensures
            res@.id == 0,
            res@.name == seq!['S', 'y', 's', 't', 'e', 'm'],
            res@.role is None,
            res@.uid == 0,
    {
        let s = "System";
        proof {
            reveal_strlit("System");
        }
        User { id: 0u64, name: s.to_owned(), role: None, uid: Uid::from(0) }
    }

    /// The user's id.
    pub fn get_id(&self) -> (res: u64)
        ensures
            res == self@.id,
    {
        self.id
    }

    /// The user's name.
    pub fn get_name(&self) -> (res: String)
        ensures
            res@ == self@.name,
    {
        self.name.clone()
    }

    /// The user's role, if any.
    pub fn get_role(&self) -> (res: Option<Role>)
        ensures
            res == self@.role,
    {
        self.role
    }

    /// The account id of the user's machine.
    pub fn get_uid(&self) -> (res: Uid)
        ensures
            res@ == self@.uid,
    {
        self.uid
    }

    /// A copy of the user.
    pub fn copy(&self) -> (res: Self)
        ensures
            res@ == self@,
    {
        User { id: self.id, name: self.name.clone(), role: self.role, uid: self.uid }
    }

    /// Gives the user a role; id, name and account id are unchanged.
    pub fn set_role(&mut self, role: Role)
        ensures
            final(self)@.role == Some(role),
            final(self)@.id == old(self)@.id,
            final(self)@.name == old(self)@.name,
            final(self)@.uid == old(self)@.uid,
    {
        self.role = Some(role);
    }
}

/// A user made from a key, a name and an account id is verified by that key and its own id,
/// and by no other id.
pub proof fn law_new_user_verifies(key: Seq<char>, name: Seq<char>, uid: u32, user_id: u64)
    ensures
        verifies(UserView { id: derived_id(key, name, uid), name, role: None, uid }, key, user_id)
            <==> user_id == derived_id(key, name, uid),
{
}

/// The text a public key is written as where a user's id is derived from it: lower-case
/// hexadecimal, two digits a byte (`hex::encode`).
pub fn key_text(pubkey: &[u8; 32]) -> (res: String)
    ensures
        res@ == hex_encoded(pubkey@),
{
    hex_encode(pubkey.as_slice())
}

} // verus!
