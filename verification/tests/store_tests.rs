use homelab_utils::error::CoreError;
use homelab_utils::model::{Device, IpAddress};
use homelab_utils::paths::{default_db_path, default_export_path};
use homelab_utils::store::{
    credential_from_row, credential_meta, keep_created_at, set_custom_name, set_username,
    AuthMethod, StoredCredential,
};

#[test]
fn auth_method_column_roundtrip() {
    for m in [AuthMethod::Password, AuthMethod::Key] {
        assert_eq!(AuthMethod::from_db_str(m.as_db_str()), Some(m));
    }
    assert_eq!(AuthMethod::from_db_str("Password"), None);
}

#[test]
fn credential_rows_and_meta() {
    let c = credential_from_row(
        "aa:bb:cc:dd:ee:ff".into(),
        "password".into(),
        Some(vec![1, 2, 3, 4]),
        Some(vec![9; 24]),
        None,
        100,
        100,
    )
    .unwrap();
    assert_eq!(c.auth_method, AuthMethod::Password);
    let meta = credential_meta(c.clone());
    assert!(meta.has_password);
    assert_eq!(meta.key_path, None);
    let err = credential_from_row("m".into(), "otp".into(), None, None, None, 1, 1).unwrap_err();
    assert_eq!(err, CoreError::Integrity("unknown auth_method 'otp' for m".to_string()));
    assert_eq!(err.message(), "data integrity error: unknown auth_method 'otp' for m");
}

#[test]
fn replacing_a_credential_keeps_its_creation_time() {
    let old = StoredCredential {
        mac: "m".into(),
        auth_method: AuthMethod::Password,
        pw_cipher: Some(vec![1]),
        pw_nonce: Some(vec![2]),
        key_path: None,
        created_at: 100,
        updated_at: 100,
    };
    let new = StoredCredential {
        auth_method: AuthMethod::Key,
        pw_cipher: None,
        pw_nonce: None,
        key_path: Some("/home/me/.ssh/id_ed25519".into()),
        created_at: 200,
        updated_at: 200,
        ..old.clone()
    };
    let kept = keep_created_at(new.clone(), &Some(old));
    assert_eq!(kept.created_at, 100);
    assert_eq!(kept.updated_at, 200);
    assert!(!credential_meta(kept).has_password);
    assert_eq!(keep_created_at(new, &None).created_at, 200);
}

#[test]
fn user_edits_change_one_field() {
    let mut d = Device::seen_at(IpAddress::V4(10, 0, 0, 2), 5);
    set_custom_name(&mut d, Some("Router"));
    assert_eq!(d.display_name(), "Router");
    set_custom_name(&mut d, None);
    assert_eq!(d.display_name(), "10.0.0.2");
    set_username(&mut d, Some("admin"));
    assert_eq!(d.chosen_user(), "admin");
}

#[test]
fn core_error_messages_and_paths() {
    assert_eq!(CoreError::NoDataDir.message(), "could not determine an application data directory");
    assert_eq!(CoreError::Db("locked".into()).message(), "database error: locked");
    if let Ok(p) = default_db_path() {
        assert!(p.ends_with("inventory.db"));
    }
    if let Ok(p) = default_export_path() {
        assert!(p.ends_with("inventory.json"));
    }
}

#[test]
fn missing_data_directory_is_no_data_dir() {
    assert_eq!(
        homelab_utils::paths::dirs_or_error(None).err(),
        Some(CoreError::NoDataDir)
    );
}

#[test]
fn data_path_follows_the_directories() {
    assert_eq!(
        homelab_utils::paths::data_path(None, "inventory.db").err(),
        Some(CoreError::NoDataDir)
    );
    if let Some(dirs) = directories::ProjectDirs::from("dev", "KodingKorp", "homelab-utils") {
        let p = homelab_utils::paths::data_path(Some(dirs.clone()), "inventory.db").unwrap();
        assert_eq!(p, dirs.data_dir().join("inventory.db"));
    }
}
