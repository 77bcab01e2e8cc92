use rbx_backend::api_keys::{generate_api_key, grants_access, new_api_key};
use rbx_backend::id_converter::CodecError;
use rbx_backend::moderation::{ban_expiry, new_ban_entry, PERMANENT};
use rbx_backend::{Backend, BackendError};

fn backend() -> Backend {
    Backend::new(
        "cookie".to_string(),
        vec![
            "abcdefghijklmnopqrstuvwxyz0123456789".to_string(),
            "0123456789".to_string(),
        ],
    )
    .unwrap()
}

#[test]
fn backend_needs_two_alphabets() {
    let r = Backend::new("c".to_string(), vec!["abc".to_string()]);
    assert_eq!(r.err(), Some(CodecError::Configuration));
    let r = Backend::new("c".to_string(), vec!["abc".to_string(), "".to_string()]);
    assert_eq!(r.err(), Some(CodecError::Configuration));
}

#[test]
fn backend_starts_disconnected() {
    let b = backend();
    assert_eq!(b.get_database().err(), Some(BackendError::DatabaseNotConnected));
    assert_eq!(b.rbx_client().cookie(), ".ROBLOSECURITY=cookie");
    assert_eq!(b.rbx_client().xcsrf_token(), "");
}

#[test]
fn backend_keeps_new_token() {
    let mut b = backend();
    b.set_xcsrf_token("tok".to_string());
    assert_eq!(b.rbx_client().xcsrf_token(), "tok");
    assert_eq!(b.rbx_client().cookie(), ".ROBLOSECURITY=cookie");
}

#[test]
fn shareable_ids_round_trip() {
    let b = backend();
    assert_eq!(b.get_shareable_id("1000".to_string()).unwrap(), "bwx");
    assert_eq!(b.get_shareable_id("+1000".to_string()).unwrap(), "bwx");
    assert_eq!(b.get_number_id("bwx".to_string()).unwrap(), 1000);
    assert_eq!(b.get_shareable_id("0".to_string()).unwrap(), "a");
}

#[test]
fn shareable_id_rejects_non_numbers() {
    let b = backend();
    assert_eq!(b.get_shareable_id("ten".to_string()), Err(BackendError::InvalidId));
    assert_eq!(b.get_shareable_id("".to_string()), Err(BackendError::InvalidId));
    assert_eq!(
        b.get_shareable_id("18446744073709551616".to_string()),
        Err(BackendError::InvalidId)
    );
    assert_eq!(b.get_number_id("b?".to_string()), Err(CodecError::Decoding));
}

#[test]
fn api_keys_have_known_text() {
    assert_eq!(generate_api_key(0, 0), "q");
    assert_eq!(generate_api_key(3, 1_700_000_000_000), "wy67izqee");
    assert_eq!(generate_api_key(41, 1_718_000_000_123), "wyd8fxgln");
}

#[test]
fn new_api_key_is_enabled_and_unassigned() {
    let k = new_api_key("wy67izqee".to_string(), 77);
    assert_eq!(k.value, "wy67izqee");
    assert_eq!(k.assign_owner, "None");
    assert_eq!(k.associated_discord_user, "None");
    assert!(k.enabled);
    assert_eq!(k.time_created, 77);
    assert!(grants_access(&Some(k.clone())));
    let mut off = k;
    off.enabled = false;
    assert!(!grants_access(&Some(off)));
    assert!(!grants_access(&None));
}

#[test]
fn ban_expiry_adds_minutes_as_sixty_units() {
    assert_eq!(ban_expiry(1_000, 5), Some(1_300));
    assert_eq!(ban_expiry(1_000, PERMANENT), Some(-1));
    assert_eq!(ban_expiry(1_000, 0), Some(1_000));
    assert_eq!(ban_expiry(i64::MAX, 1), None);
    assert_eq!(ban_expiry(0, i64::MAX), None);
    assert_eq!(ban_expiry(-120, -2), Some(-240));
}

#[test]
fn ban_entry_keeps_fields() {
    let e = new_ban_entry(7, 100, 400, "mod", "spam");
    assert_eq!((e.user_id, e.banned_time, e.banned_until), (7, 100, 400));
    assert_eq!(e.moderator, "mod");
    assert_eq!(e.reason, "spam");
}

#[test]
fn luau_source_is_parsed() {
    let b = backend();
    assert!(b.luau_ast_from_string("local x = 1\nprint(x)".to_string()).is_ok());
    assert_eq!(
        b.luau_ast_from_string("local = = 1".to_string()).err(),
        Some(BackendError::LuauSyntax)
    );
}

