use std::collections::HashMap;

use jsonwebtoken::{Algorithm, EncodingKey, Header};
use openssl::asn1::Asn1Time;
use openssl::hash::MessageDigest;
use openssl::pkey::PKey;
use openssl::rsa::Rsa;
use openssl::x509::{X509NameBuilder, X509};
use serde_json::Value;
use templogger::auth::{resolve_key, valid_jwt, AuthError, CertificateSet, KeyCache, KeyError};
use templogger::error::DBError;
use templogger::repository::{create_connection, create_user, fetch_record, record};
use templogger::store::Database;

const NOW: i64 = 1_700_000_000;

struct Issuer {
    certificate_pem: String,
    private_pem: Vec<u8>,
}

fn issuer() -> Issuer {
    let rsa = Rsa::generate(2048).unwrap();
    let private_pem = rsa.private_key_to_pem().unwrap();
    let pkey = PKey::from_rsa(rsa).unwrap();
    let mut name = X509NameBuilder::new().unwrap();
    name.append_entry_by_text("CN", "issuer").unwrap();
    let name = name.build();
    let mut builder = X509::builder().unwrap();
    builder.set_version(2).unwrap();
    builder.set_subject_name(&name).unwrap();
    builder.set_issuer_name(&name).unwrap();
    builder.set_pubkey(&pkey).unwrap();
    builder.set_not_before(&Asn1Time::days_from_now(0).unwrap()).unwrap();
    builder.set_not_after(&Asn1Time::days_from_now(1).unwrap()).unwrap();
    builder.sign(&pkey, MessageDigest::sha256()).unwrap();
    let certificate_pem = String::from_utf8(builder.build().to_pem().unwrap()).unwrap();
    Issuer { certificate_pem, private_pem }
}

fn token(issuer: &Issuer, kid: Option<&str>, exp: Option<i64>, user_id: Option<&str>) -> String {
    let mut header = Header::new(Algorithm::RS256);
    header.kid = kid.map(|k| k.to_string());
    let mut claims: HashMap<String, Value> = HashMap::new();
    if let Some(e) = exp {
        claims.insert("exp".to_string(), Value::from(e));
    }
    if let Some(u) = user_id {
        claims.insert("user_id".to_string(), Value::from(u));
    }
    let key = EncodingKey::from_rsa_pem(&issuer.private_pem).unwrap();
    jsonwebtoken::encode(&header, &claims, &key).unwrap()
}

fn key_set(issuer: &Issuer) -> Option<CertificateSet> {
    Some(CertificateSet {
        entries: vec![
            ("other".to_string(), "not a certificate".to_string()),
            ("k1".to_string(), issuer.certificate_pem.clone()),
        ],
    })
}

#[test]
fn valid_token_yields_expiry_and_subject() {
    let iss = issuer();
    let t = token(&iss, Some("k1"), Some(NOW + 3600), Some("u1"));
    let v = valid_jwt(&t, &key_set(&iss), NOW).unwrap();
    assert_eq!(v.exp, NOW + 3600);
    assert_eq!(v.user_id, Some("u1".to_string()));
}

#[test]
fn expired_token_is_refused() {
    let iss = issuer();
    let certs = key_set(&iss);
    let past = token(&iss, Some("k1"), Some(NOW - 5), Some("u1"));
    assert_eq!(valid_jwt(&past, &certs, NOW).err(), Some(AuthError::TokenExpired));
    let exactly_now = token(&iss, Some("k1"), Some(NOW), Some("u1"));
    assert_eq!(valid_jwt(&exactly_now, &certs, NOW).err(), Some(AuthError::TokenExpired));
    let mut db = Database::new();
    assert_eq!(create_connection(&past, &certs, NOW, &mut db), Err(DBError::Unauthorized));
}

#[test]
fn unknown_key_id_is_refused_and_store_untouched() {
    let iss = issuer();
    let certs = key_set(&iss);
    let t = token(&iss, Some("missing"), Some(NOW + 60), Some("u1"));
    assert_eq!(
        valid_jwt(&t, &certs, NOW).err(),
        Some(AuthError::KeyResolutionFailed(KeyError::KeyNotFound))
    );
    let good = token(&iss, Some("k1"), Some(NOW + 60), Some("u1"));
    let mut db = Database::new();
    assert_eq!(create_connection(&good, &certs, NOW, &mut db), Ok(()));
    assert_eq!(create_user(&good, &certs, NOW, &mut db, "Alice"), Ok(()));
    assert_eq!(create_user(&t, &certs, NOW, &mut db, "Eve"), Err(DBError::Unauthorized));
    assert_eq!(record(&t, &certs, NOW, &mut db, 5), Err(DBError::Unauthorized));
    let rows = fetch_record(&good, &certs, NOW, &db, NOW - 1, NOW + 1).unwrap();
    assert!(rows.is_empty());
}

#[test]
fn header_and_key_failures_are_told_apart() {
    let iss = issuer();
    let certs = key_set(&iss);
    assert_eq!(valid_jwt("garbage", &certs, NOW).err(), Some(AuthError::MalformedHeader));
    let no_kid = token(&iss, None, Some(NOW + 60), Some("u1"));
    assert_eq!(valid_jwt(&no_kid, &certs, NOW).err(), Some(AuthError::MissingKeyId));
    let t = token(&iss, Some("k1"), Some(NOW + 60), Some("u1"));
    assert_eq!(
        valid_jwt(&t, &None, NOW).err(),
        Some(AuthError::KeyResolutionFailed(KeyError::UpstreamUnavailable))
    );
    let bad_cert = token(&iss, Some("other"), Some(NOW + 60), Some("u1"));
    assert_eq!(
        valid_jwt(&bad_cert, &certs, NOW).err(),
        Some(AuthError::KeyResolutionFailed(KeyError::MalformedCertificate))
    );
}

#[test]
fn resolved_key_is_the_rsa_public_key() {
    let iss = issuer();
    let key = resolve_key(&key_set(&iss), &"k1".to_string()).unwrap();
    let text = String::from_utf8(key).unwrap();
    assert!(text.starts_with("-----BEGIN PUBLIC KEY-----"));
    assert_ne!(text, iss.certificate_pem);
}

#[test]
fn signature_from_another_key_is_refused() {
    let iss = issuer();
    let other = issuer();
    let forged = token(&other, Some("k1"), Some(NOW + 60), Some("u1"));
    assert_eq!(valid_jwt(&forged, &key_set(&iss), NOW).err(), Some(AuthError::SignatureInvalid));
}

#[test]
fn missing_expiry_or_subject() {
    let iss = issuer();
    let certs = key_set(&iss);
    let no_sub = token(&iss, Some("k1"), Some(NOW + 60), None);
    assert_eq!(valid_jwt(&no_sub, &certs, NOW).unwrap().user_id, None);
    let mut db = Database::new();
    assert_eq!(create_connection(&no_sub, &certs, NOW, &mut db), Ok(()));
    assert_eq!(create_user(&no_sub, &certs, NOW, &mut db, "A"), Err(DBError::Unauthorized));
    let no_exp = token(&iss, Some("k1"), None, Some("u1"));
    assert_eq!(valid_jwt(&no_exp, &certs, NOW).err(), Some(AuthError::MissingExpiry));
}

#[test]
fn authenticated_scenario_two_readings() {
    let iss = issuer();
    let certs = key_set(&iss);
    let t = token(&iss, Some("k1"), Some(NOW + 3600), Some("u1"));
    let mut db = Database::new();
    assert_eq!(create_connection(&t, &certs, NOW, &mut db), Ok(()));
    assert_eq!(create_user(&t, &certs, NOW, &mut db, "Alice"), Ok(()));
    assert_eq!(create_user(&t, &certs, NOW, &mut db, "Bob"), Err(DBError::AlreadyExists));
    assert_eq!(record(&t, &certs, NOW, &mut db, 21.5f32.to_bits()), Ok(1));
    assert_eq!(record(&t, &certs, NOW + 1, &mut db, 22.0f32.to_bits()), Ok(2));
    let rows = fetch_record(&t, &certs, NOW + 2, &db, NOW - 1, NOW + 2).unwrap();
    assert_eq!(rows.len(), 2);
    assert_eq!(f32::from_bits(rows[0].temperature_bits), 21.5);
    assert_eq!(f32::from_bits(rows[1].temperature_bits), 22.0);
    assert!(rows[0].date < rows[1].date);
    assert_eq!(rows[0].name, "Alice");
    assert_eq!(rows[1].name, "Alice");
    assert_eq!(
        fetch_record(&t, &certs, NOW + 2, &db, NOW + 2, NOW - 1).err(),
        Some(DBError::InvalidRange)
    );
    assert_eq!(
        fetch_record("garbage", &certs, NOW + 2, &db, NOW + 2, NOW + 2).err(),
        Some(DBError::InvalidRange)
    );
}

#[test]
fn key_cache_refreshes_when_stale_or_key_missing() {
    let iss = issuer();
    let t = token(&iss, Some("k1"), Some(NOW + 3600), Some("u1"));
    let rotated = token(&iss, Some("k2"), Some(NOW + 3600), Some("u1"));
    let mut cache = KeyCache::new(300);
    assert!(!cache.fresh(NOW));
    assert!(cache.needs_refresh(&t, NOW));
    assert!(!cache.needs_refresh("garbage", NOW));
    cache.store(key_set(&iss).unwrap(), NOW);
    assert!(cache.fresh(NOW + 299));
    assert!(!cache.fresh(NOW + 300));
    assert!(!cache.fresh(NOW - 1));
    assert!(!cache.needs_refresh(&t, NOW + 10));
    assert!(cache.needs_refresh(&rotated, NOW + 10));
    assert!(cache.needs_refresh(&t, NOW + 400));
    assert_eq!(valid_jwt(&t, &cache.certificates, NOW + 10).unwrap().exp, NOW + 3600);
    cache.invalidate();
    assert!(cache.certificates.is_none());
    assert!(cache.needs_refresh(&t, NOW + 10));
}

#[test]
fn verified_token_passes_every_claim_through() {
    let iss = issuer();
    let mut header = Header::new(Algorithm::RS256);
    header.kid = Some("k1".to_string());
    let mut claims: HashMap<String, Value> = HashMap::new();
    claims.insert("exp".to_string(), Value::from(NOW + 60));
    claims.insert("user_id".to_string(), Value::from("u1"));
    claims.insert("role".to_string(), Value::from("admin"));
    claims.insert("level".to_string(), Value::from(3));
    let key = EncodingKey::from_rsa_pem(&iss.private_pem).unwrap();
    let t = jsonwebtoken::encode(&header, &claims, &key).unwrap();
    let v = valid_jwt(&t, &key_set(&iss), NOW).unwrap();
    let expected: Vec<(String, String)> = vec![
        ("exp".to_string(), (NOW + 60).to_string()),
        ("level".to_string(), "3".to_string()),
        ("role".to_string(), "\"admin\"".to_string()),
        ("user_id".to_string(), "\"u1\"".to_string()),
    ];
    assert_eq!(v.claims, expected);
}

