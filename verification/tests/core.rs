use xxgate::access::{CredentialCipher, hash_password, secret_hash, verify_password};
use xxgate::accounts::{Credentials, DisableReason};
use xxgate::identity::{Binding, IdentityMap, SessionKey};
use xxgate::ids::random_uuid;
use xxgate::quota::{cooldown_active, disable_reason};
use xxgate::settings::RuntimeSettings;
use xxgate::time::Timestamp;
use xxgate::turn_state::{TurnStateHeader, MAX_BYTES, MAX_VALUES};
use xxgate::types::ModelRef;

#[test]
fn item_type_prefixes_survive_mapping_in_both_directions() {
    let binding = Binding::new(
        SessionKey { key_id: random_uuid(), client_session_id: "s".into() },
        random_uuid(),
        &ModelRef::codex("m"),
        1,
    );
    let mut ids = IdentityMap::new(binding, vec![]);
    for prefix in ["msg", "rs", "ctc", "ctco", "fc", "fco", "future123"] {
        let client = format!("{prefix}_client");
        let outbound = ids.outbound("item", &client).ok().unwrap();
        assert!(outbound.starts_with(&format!("{prefix}_")));
        assert_ne!(outbound, client);
        assert_eq!(ids.inbound("item", &outbound).ok().unwrap(), client);
        let upstream = format!("{prefix}_upstream");
        let inbound = ids.inbound("item", &upstream).ok().unwrap();
        assert!(inbound.starts_with(&format!("{prefix}_")));
        assert_eq!(ids.outbound("item", &inbound).ok().unwrap(), upstream);
    }
    let mut restored = IdentityMap::new(ids.binding.clone(), ids.take_pending());
    assert!(restored.outbound("item", "ctco_client").ok().unwrap().starts_with("ctco_"));
    assert!(restored.take_pending().is_empty());
}

#[test]
fn migration_and_return_never_reuse_ids() {
    let session = SessionKey { key_id: random_uuid(), client_session_id: "session".into() };
    let account = random_uuid();
    let model = ModelRef::codex("test");
    let mut a = IdentityMap::new(Binding::new(session.clone(), account, &model, 1), vec![]);
    let mut b = IdentityMap::new(Binding::new(session.clone(), random_uuid(), &model, 2), vec![]);
    let mut c = IdentityMap::new(Binding::new(session, account, &model, 3), vec![]);
    let id = a.outbound("thread", "session").ok().unwrap();
    assert_eq!(id, a.outbound("thread", "session").ok().unwrap());
    assert_ne!(id, b.outbound("thread", "session").ok().unwrap());
    assert_ne!(id, c.outbound("thread", "session").ok().unwrap());
    let restored = IdentityMap::new(a.binding.clone(), a.take_pending());
    assert_eq!(restored.existing("thread", "session"), Some(id.as_str()));
}

#[test]
fn ciphertext_is_bound_to_account() {
    let cipher = CredentialCipher::new(&[7; 32]);
    let id = random_uuid();
    let plaintext = br#"{"access_token":"secret","refresh_token":"refresh","id_token":"","expires_at":null}"#;
    let encrypted = cipher.encrypt(id, plaintext).ok().unwrap();
    assert_eq!(encrypted.len(), plaintext.len() + 28);
    assert_eq!(cipher.decrypt(id, &encrypted).ok().unwrap(), plaintext.to_vec());
    assert!(cipher.decrypt(random_uuid(), &encrypted).is_err());
    assert_eq!(cipher.decrypt(id, &encrypted[..27]).err().unwrap().code, "storage_unavailable");
    assert_eq!(
        cipher.decrypt(id, &encrypted[..40]).err().unwrap().code,
        "credential_decryption_failed"
    );
}

#[test]
fn credentials_and_passwords_are_checked() {
    let c = Credentials {
        access_token: "secret".into(),
        refresh_token: "refresh".into(),
        id_token: "".into(),
        expires_at: None,
    };
    assert!(c.validate().is_ok());
    let empty = Credentials { access_token: "".into(), ..c };
    assert_eq!(empty.validate().err().unwrap().message, "Invalid credential length");
    let bad = Credentials {
        access_token: "a\nb".into(),
        refresh_token: "".into(),
        id_token: "".into(),
        expires_at: None,
    };
    assert_eq!(bad.validate().err().unwrap().message, "Invalid access token");
    assert_eq!(hash_password("short").err().unwrap().code, "invalid_request");
    let hash = hash_password("correct horse battery").ok().unwrap();
    assert!(verify_password("correct horse battery", &hash));
    assert!(!verify_password("wrong horse battery", &hash));
    assert_eq!(
        secret_hash("abc"),
        "ba7816bf8f01cfea414140de5dae2223b00361a396177a9cb410ff61f20015ad"
    );
}

#[test]
fn quota_windows_map_to_the_three_cooldowns() {
    assert_eq!(disable_reason(Some(300), true), Some(DisableReason::Quota5hExhausted));
    assert_eq!(disable_reason(Some(10080), true), Some(DisableReason::Quota7dExhausted));
    assert_eq!(disable_reason(Some(43200), true), Some(DisableReason::QuotaExhausted));
    assert_eq!(disable_reason(Some(300), false), None);
}

#[test]
fn cooldown_is_active_only_before_reset() {
    let now = Timestamp { secs: 1_700_000_000, nanos: 0 };
    let later = Timestamp { secs: now.secs + 60, nanos: 0 };
    let earlier = Timestamp { secs: now.secs - 60, nanos: 0 };
    assert!(cooldown_active(true, Some(later), now));
    assert!(!cooldown_active(true, Some(earlier), now));
}

#[test]
fn legacy_settings_default_session_capacity_and_reject_invalid_limits() {
    let mut settings = RuntimeSettings { version: 7, ..RuntimeSettings::default() };
    assert_eq!(settings.version, 7);
    assert_eq!(settings.session_max_inflight, 2);
    for limit in [1, 2, 1000] {
        settings.session_max_inflight = limit;
        assert!(settings.validate().is_ok());
    }
    for limit in [0, 1001] {
        settings.session_max_inflight = limit;
        assert!(settings.validate().is_err());
    }
}

#[test]
fn absent_empty_multiple_and_opaque_bytes_are_distinct() {
    let absent = TurnStateHeader::capture(&vec![]);
    assert!(!absent.present);
    assert!(absent.values.is_empty());
    let raw = vec![b"".to_vec(), b"  OPAQUE_STATE+/=  ".to_vec(), vec![0xff, 0x80]];
    let capture = TurnStateHeader::capture(&raw);
    assert!(capture.present);
    assert_eq!(capture.total_values, 3);
    assert_eq!(capture.values[0].value, "");
    assert_eq!(capture.values[1].value, "  OPAQUE_STATE+/=  ");
    assert_eq!(capture.values[2].encoding, "base64");
    assert_eq!(capture.values[2].value, "/4A=");
}

#[test]
fn capture_bounds_total_bytes_and_count_without_changing_headers() {
    let large = "界".repeat(MAX_BYTES);
    let mut raw = vec![large.as_bytes().to_vec()];
    for _ in 0..12 {
        raw.push(b"opaque".to_vec());
    }
    let capture = TurnStateHeader::capture(&raw);
    assert!(capture.values[0].truncated);
    assert_eq!(capture.values[0].bytes, large.len());
    assert!(capture.values.iter().map(|v| v.value.len()).sum::<usize>() <= MAX_BYTES);
    assert!(capture.omitted_values > 0);
    assert_eq!(raw[0], large.as_bytes().to_vec());
    let raw: Vec<Vec<u8>> = (0..12).map(|_| b"opaque".to_vec()).collect();
    let capture = TurnStateHeader::capture(&raw);
    assert_eq!(capture.values.len(), MAX_VALUES);
    assert_eq!(capture.omitted_values, 4);
}
