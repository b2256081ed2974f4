use fallegji::auth::{decimal_ascii, Authentication, Role, RoleError, Uid, User};

#[test]
fn test_role_parsing_and_display() -> Result<(), RoleError> {
    // Display
    assert_eq!(Role::Admin.to_string(), "admin");
    assert_eq!(Role::Member.to_string(), "member");

    // FromStr (case-insensitive)
    assert_eq!("admin".parse::<Role>()?, Role::Admin);
    assert_eq!("MEMBER".parse::<Role>()?, Role::Member);

    // Invalid
    assert!("invalid".parse::<Role>().is_err());

    Ok(())
}

#[test]
fn test_authentication_deterministic_and_verifiable() {
    let key = "test_pubkey_123";
    let name = "alice";
    let uid = Uid::from(1000);

    // Deterministic: same inputs → same ID
    let id1 = User::gen_id(key.to_string(), name, uid);
    let id2 = User::gen_id(key.to_string(), name, uid);
    assert_eq!(id1, id2);

    // Verification works
    let user = User::new(key.to_string(), name.to_string(), uid);
    assert!(user.ver_id(key.to_string(), user.get_id()));

    // Wrong key fails
    assert!(!user.ver_id("wrong_key".to_string(), user.get_id()));

    // Different name → different ID
    let user2 = User::new(key.to_string(), "bob".to_string(), uid);
    assert_ne!(user.get_id(), user2.get_id());
}

#[test]
fn test_user_new_creates_valid_user() {
    let key = "pubkey_xyz";
    let name = "charlie";
    let uid = Uid::from(500);

    let user = User::new(key.to_string(), name.to_string(), uid);

    assert_eq!(user.get_name(), name);
    assert_eq!(user.get_uid(), uid);
    assert_eq!(user.get_role(), None);
    assert!(user.get_id() != 0); // Non-zero ID generated
    assert!(user.ver_id(key.to_string(), user.get_id()));
}

#[test]
fn test_user_getters() {
    let user = User::new("key".to_string(), "dave".to_string(), Uid::from(100));

    assert_eq!(user.get_name(), "dave");
    assert_eq!(user.get_uid(), Uid::from(100));
    assert_eq!(user.get_role(), None);
    assert!(user.get_id() > 0);
}

#[test]
fn test_user_setters() {
    let mut user = User::new("key".to_string(), "eve".to_string(), Uid::from(200));
    let original_id = user.get_id();

    // Set role
    user.set_role(Role::Admin);
    assert_eq!(user.get_role(), Some(Role::Admin));

    // ID remains stable after setter
    assert_eq!(user.get_id(), original_id);

    // Can change role
    user.set_role(Role::Member);
    assert_eq!(user.get_role(), Some(Role::Member));
}

#[test]
fn role_text_reads_back() {
    for role in [Role::Admin, Role::Member] {
        assert_eq!(Role::from_str(&role.to_string()), Ok(role));
    }
    assert_eq!(Role::from_str("AdMiN"), Ok(Role::Admin));
    assert_eq!(Role::from_str("admin "), Err(RoleError::InvalidRole));
    assert_eq!(Role::from_str(""), Err(RoleError::InvalidRole));
    // The Kelvin sign lower-cases to 'k', which neither role contains.
    assert_eq!(Role::from_str("\u{212A}"), Err(RoleError::InvalidRole));
}

#[test]
fn uid_round_trips() {
    assert_eq!(Uid::from(4242).as_raw(), 4242);
    assert_eq!(Uid::from(0), Uid::from(0));
}

#[test]
fn decimal_digits_of_ids() {
    assert_eq!(decimal_ascii(0), b"0".to_vec());
    assert_eq!(decimal_ascii(1000), b"1000".to_vec());
    assert_eq!(decimal_ascii(u32::MAX), b"4294967295".to_vec());
}

#[test]
fn user_id_is_sha256_folded() {
    // SHA-256("keyname7") xor-folded over its four big-endian 8-byte chunks.
    let id = User::gen_id("key".to_string(), "name", Uid::from(7));
    let digest = sha256_reference(b"keyname7");
    let mut folded = 0u64;
    for chunk in digest.chunks(8) {
        let mut b = [0u8; 8];
        b.copy_from_slice(chunk);
        folded ^= u64::from_be_bytes(b);
    }
    assert_eq!(id, folded);
}

fn sha256_reference(data: &[u8]) -> [u8; 32] {
    let out = <sha2::Sha256 as sha2::Digest>::digest(data);
    let mut a = [0u8; 32];
    a.copy_from_slice(&out);
    a
}

#[test]
fn new_user_verifies_only_its_own_id() {
    let user = User::new("k".to_string(), "n".to_string(), Uid::from(1));
    assert!(user.ver_id("k".to_string(), user.get_id()));
    assert!(!user.ver_id("k".to_string(), user.get_id().wrapping_add(1)));
}

#[test]
fn system_user() {
    let s = User::sys();
    assert_eq!(s.get_id(), 0);
    assert_eq!(s.get_name(), "System");
    assert_eq!(s.get_role(), None);
    assert_eq!(s.get_uid(), Uid::from(0));
    let c = s.copy();
    assert_eq!(c.get_name(), "System");
}

#[test]
fn key_text_is_lower_case_hex() {
    let mut key = [0u8; 32];
    key[0] = 0xAB;
    key[31] = 0x01;
    let text = fallegji::auth::key_text(&key);
    assert_eq!(text.len(), 64);
    assert!(text.starts_with("ab00"));
    assert!(text.ends_with("0001"));
}
