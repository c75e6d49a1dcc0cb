use picture_frame::api::{
    bearer_token, ext_for_mime, fresh_picture_name, scope_allows_read, scope_allows_write,
    valid_key_scope, ApiError,
};
use picture_frame::keys::{create_api_key_secret, mint_api_key, verify_api_key, ApiKeyRow};
use picture_frame::render::{orientation_op, OrientationOp};

#[test]
fn status_codes_match_error_classes() {
    assert_eq!(ApiError::Unauthorized.status_code(), 401);
    assert_eq!(ApiError::NotFound.status_code(), 404);
    assert_eq!(ApiError::BadRequest("why".to_string()).status_code(), 400);
    assert_eq!(ApiError::Internal("what".to_string()).status_code(), 500);
}

#[test]
fn scopes_grant_what_they_should() {
    assert!(scope_allows_read("ro"));
    assert!(scope_allows_read("rw"));
    assert!(!scope_allows_read("admin"));
    assert!(!scope_allows_write("ro"));
    assert!(scope_allows_write("rw"));
    assert!(valid_key_scope("ro"));
    assert!(valid_key_scope("rw"));
    assert!(!valid_key_scope(""));
}

#[test]
fn bearer_token_is_stripped_and_trimmed() {
    assert_eq!(
        bearer_token("Bearer  abc123 ").as_deref(),
        Some("abc123")
    );
    assert_eq!(bearer_token("Bearer x").as_deref(), Some("x"));
    assert!(bearer_token("Basic abc").is_none());
    assert!(bearer_token("bearer abc").is_none());
    assert!(bearer_token("Bearer").is_none());
    assert_eq!(bearer_token("Bearer ").as_deref(), Some(""));
}

#[test]
fn mime_types_map_to_extensions() {
    assert_eq!(ext_for_mime("image/jpeg"), Some("jpg"));
    assert_eq!(ext_for_mime("image/png"), Some("png"));
    assert_eq!(ext_for_mime("IMAGE/JPEG"), Some("jpg"));
    assert_eq!(ext_for_mime("Image/Png"), Some("png"));
    assert_eq!(ext_for_mime("image/gif"), None);
    assert_eq!(ext_for_mime("text/plain"), None);
}

#[test]
fn picture_names_carry_id_and_extension() {
    let (id, name) = fresh_picture_name("jpg");
    assert_eq!(id.len(), 36);
    assert_eq!(name, format!("{}.jpg", id));
    assert_eq!(&id[8..9], "-");
    assert_eq!(&id[13..14], "-");
    assert_eq!(&id[18..19], "-");
    assert_eq!(&id[23..24], "-");
    let (other, _) = fresh_picture_name("jpg");
    assert_ne!(id, other);
}

#[test]
fn secrets_are_long_lowercase_hex() {
    let s = create_api_key_secret();
    assert_eq!(s.len(), 64);
    assert!(s.chars().all(|c| c.is_ascii_hexdigit() && !c.is_ascii_uppercase()));
    let t = create_api_key_secret();
    assert_ne!(s, t);
}

#[test]
fn minted_key_verifies_and_rejects() {
    let (secret, hash) = mint_api_key().unwrap();
    let rows = vec![ApiKeyRow {
        id: "one".to_string(),
        token_hash: hash,
        scope: "rw".to_string(),
    }];
    let (id, scope) = verify_api_key(&rows, &secret).unwrap();
    assert_eq!(id, "one");
    assert_eq!(scope, "rw");
    assert!(verify_api_key(&rows, "some other secret").is_none());
}

#[test]
fn key_lookup_finds_the_matching_row() {
    let (s1, h1) = mint_api_key().unwrap();
    let (s2, h2) = mint_api_key().unwrap();
    let rows = vec![
        ApiKeyRow { id: "one".to_string(), token_hash: h1, scope: "ro".to_string() },
        ApiKeyRow { id: "two".to_string(), token_hash: h2, scope: "rw".to_string() },
        ApiKeyRow {
            id: "broken".to_string(),
            token_hash: "not a phc string".to_string(),
            scope: "rw".to_string(),
        },
    ];
    let (id, scope) = verify_api_key(&rows, &s2).unwrap();
    assert_eq!(id, "two");
    assert_eq!(scope, "rw");
    let (id1, _) = verify_api_key(&rows, &s1).unwrap();
    assert_eq!(id1, "one");
    assert!(verify_api_key(&rows, "gamma").is_none());
    let empty: Vec<ApiKeyRow> = Vec::new();
    assert!(verify_api_key(&empty, "alpha").is_none());
}

#[test]
fn orientation_codes_map_to_operations() {
    assert!(matches!(orientation_op(1), OrientationOp::Identity));
    assert!(matches!(orientation_op(2), OrientationOp::FlipHorizontal));
    assert!(matches!(orientation_op(3), OrientationOp::Rotate180));
    assert!(matches!(orientation_op(4), OrientationOp::FlipVertical));
    assert!(matches!(orientation_op(5), OrientationOp::FlipHorizontalRotate90));
    assert!(matches!(orientation_op(6), OrientationOp::Rotate90));
    assert!(matches!(orientation_op(7), OrientationOp::FlipHorizontalRotate270));
    assert!(matches!(orientation_op(8), OrientationOp::Rotate270));
    assert!(matches!(orientation_op(0), OrientationOp::Identity));
    assert!(matches!(orientation_op(9), OrientationOp::Identity));
}
