use std::collections::BTreeMap;

use serde_json::Value;
use vstd::prelude::*;

verus! {

/// Why a signing key could not be had for a key id.
#[derive(Debug, Clone, Copy, PartialEq, Eq, Structural)]
pub enum KeyError {
    /// The provider's key set has no entry for the key id.
    KeyNotFound,
    /// The provider's key set could not be obtained.
    UpstreamUnavailable,
    /// The certificate does not parse or carries no RSA key.
    MalformedCertificate,
}

/// Why a token was not accepted. Callers outside the library see only that
/// verification failed; the detail is for diagnosis.
#[derive(Debug, Clone, Copy, PartialEq, Eq, Structural)]
pub enum AuthError {
    /// The header segment could not be decoded.
    MalformedHeader,
    /// The header names no key id.
    MissingKeyId,
    /// No usable key was found for the key id.
    KeyResolutionFailed(KeyError),
    /// The signature does not verify under RS256 with the resolved key.
    SignatureInvalid,
    /// The claims hold no integer expiry.
    MissingExpiry,
    /// The expiry is not later than the current time.
    TokenExpired,
}

/// The provider's key set: pairs of key id and PEM-encoded X.509 certificate.
pub struct CertificateSet {
    pub entries: Vec<(String, String)>,
}

/// What a verified token tells: its expiry, its subject identity when present
/// as a string, and its whole claim set as pairs of claim name and the JSON
/// text of the claim's value, in order of claim name.
pub struct VerifiedToken {
    pub exp: i64,
    pub user_id: Option<String>,
    pub claims: Vec<(String, String)>,
}

/// The longest certificate, in characters, that is handed to the PEM parser:
/// at four bytes a character its encoding stays below 2^31 bytes.
pub const MAX_CERTIFICATE_CHARS: usize = 0x1fff_ffff;

impl CertificateSet {
    pub open spec fn view(&self) -> Seq<(Seq<char>, Seq<char>)> {
        self.entries@.map_values(|p: (String, String)| (p.0@, p.1@))
    }
}

pub open spec fn certificates_view(c: Option<CertificateSet>) -> Option<Seq<(Seq<char>, Seq<char>)>> {
    match c {
        None => None,
        Some(set) => Some(set.view()),
    }
}

pub open spec fn pairs_view(p: Seq<(String, String)>) -> Seq<(Seq<char>, Seq<char>)> {
    p.map_values(|c: (String, String)| (c.0@, c.1@))
}

pub open spec fn string_option_view(s: Option<String>) -> Option<Seq<char>> {
    match s {
        None => None,
        Some(x) => Some(x@),
    }
}

/// The claim that holds a token's expiry, in Unix seconds.
pub open spec fn expiry_claim() -> Seq<char> {
    seq!['e', 'x', 'p']
}

/// The claim that holds a token's subject identity.
pub open spec fn subject_claim() -> Seq<char> {
    seq!['u', 's', 'e', 'r', '_', 'i', 'd']
}

/// What decoding a token's header gives: `None` when it cannot be decoded,
/// else its key id field.
pub uninterp spec fn header_key_id_of(token: Seq<char>) -> Option<Option<Seq<char>>>;

/// The PEM encoding of the RSA public key that a PEM certificate carries, if
/// it parses and carries one.
pub uninterp spec fn rsa_key_pem_of(certificate: Seq<char>) -> Option<Seq<u8>>;

/// What checking a token's RS256 signature under a PEM public key gives:
/// `None` when the key or the signature is refused, else the integer value
/// of the first named claim and the string value of the second, where the
/// claims hold such values, and every claim with the JSON text of its value.
pub uninterp spec fn rs256_claims_of(
    token: Seq<char>,
    key_pem: Seq<u8>,
    exp_claim: Seq<char>,
    subject_claim: Seq<char>,
) -> Option<(Option<i64>, Option<Seq<char>>, Seq<(Seq<char>, Seq<char>)>)>;

/// Relies on `jsonwebtoken::decode_header`: it decodes the header segment of
/// the token; its `kid` field is handed back.
#[verifier::external_body]
fn decode_key_id(token: &str) -> (r: Option<Option<String>>)
    ensures
        match (r, header_key_id_of(token@)) {
            (None, None) => true,
            (Some(k), Some(s)) => string_option_view(k) == s,
            _ => false,
        },
{
    jsonwebtoken::decode_header(token).ok().map(|h| h.kid)
}

/// Relies on openssl's `X509::from_pem`, `X509::public_key`, `PKey::rsa` and
/// `Rsa::public_key_to_pem`: the certificate is parsed and its RSA public
/// key encoded as PEM.
#[verifier::external_body]
fn rsa_public_key_pem(certificate: &str) -> (r: Option<Vec<u8>>)
    requires
        certificate@.len() <= MAX_CERTIFICATE_CHARS,
    ensures
        match (r, rsa_key_pem_of(certificate@)) {
            (None, None) => true,
            (Some(k), Some(s)) => k@ == s,
            _ => false,
        },
{
    let cert = openssl::x509::X509::from_pem(certificate.as_bytes()).ok()?;
    let rsa = cert.public_key().ok()?.rsa().ok()?;
    rsa.public_key_to_pem().ok()
}

/// Relies on `jsonwebtoken::DecodingKey::from_rsa_pem` and
/// `jsonwebtoken::decode` with RS256, with the clock check of the expiry off
/// and no claim required, so that the outcome depends on its arguments alone;
/// the two claims are read with `serde_json::Value::as_i64` and
/// `serde_json::Value::as_str`, and each value is written out with
/// `serde_json::Value::to_string`.
#[verifier::external_body]
fn decode_rs256(token: &str, key_pem: &[u8], exp_claim: &str, subject_claim: &str) -> (r: Option<
    (Option<i64>, Option<String>, Vec<(String, String)>),
>)
    ensures
        match (r, rs256_claims_of(token@, key_pem@, exp_claim@, subject_claim@)) {
            (None, None) => true,
            (Some((e, u, c)), Some((f, v, d))) => e == f && string_option_view(u) == v
                && pairs_view(c@) == d,
            _ => false,
        },
{
    let key = jsonwebtoken::DecodingKey::from_rsa_pem(key_pem).ok()?;
    let mut v = jsonwebtoken::Validation::new(jsonwebtoken::Algorithm::RS256);
    v.validate_exp = false;
    v.required_spec_claims.clear();
    let c = jsonwebtoken::decode::<BTreeMap<String, Value>>(token, &key, &v).ok()?.claims;
    let exp = c.get(exp_claim).and_then(|x| x.as_i64());
    let sub = c.get(subject_claim).and_then(|x| x.as_str()).map(|x| x.to_string());
    let all = c.iter().map(|(k, x)| (k.clone(), x.to_string())).collect();
    Some((exp, sub, all))
}

/// The certificate listed last under `key_id`, if any.
pub open spec fn certificate_for(entries: Seq<(Seq<char>, Seq<char>)>, key_id: Seq<char>) -> Option<
    Seq<char>,
>
    decreases entries.len(),
{
    if entries.len() == 0 {
        None
    } else if entries.last().0 == key_id {
        Some(entries.last().1)
    } else {
        certificate_for(entries.drop_last(), key_id)
    }
}

/// The PEM public key for `key_id`, from the provider's key set.
pub open spec fn key_result(certificates: Option<Seq<(Seq<char>, Seq<char>)>>, key_id: Seq<char>) -> Result<
    Seq<u8>,
    KeyError,
> {
    match certificates {
        None => Err(KeyError::UpstreamUnavailable),
        Some(entries) => match certificate_for(entries, key_id) {
            None => Err(KeyError::KeyNotFound),
            Some(cert) => if cert.len() > MAX_CERTIFICATE_CHARS {
                Err(KeyError::MalformedCertificate)
            } else {
                match rsa_key_pem_of(cert) {
                    None => Err(KeyError::MalformedCertificate),
                    Some(key) => Ok(key),
                }
            },
        },
    }
}

/// The verdict on a token, given the provider's key set and the current time
/// in Unix seconds: its expiry, subject and claim set, or the first check that
/// failed.
pub open spec fn verify_result(
    token: Seq<char>,
    certificates: Option<Seq<(Seq<char>, Seq<char>)>>,
    now: i64,
) -> Result<(i64, Option<Seq<char>>, Seq<(Seq<char>, Seq<char>)>), AuthError> {
    match header_key_id_of(token) {
        None => Err(AuthError::MalformedHeader),
        Some(None) => Err(AuthError::MissingKeyId),
        Some(Some(key_id)) => match key_result(certificates, key_id) {
            Err(e) => Err(AuthError::KeyResolutionFailed(e)),
            Ok(key) => match rs256_claims_of(token, key, expiry_claim(), subject_claim()) {
                None => Err(AuthError::SignatureInvalid),
                Some((None, _, _)) => Err(AuthError::MissingExpiry),
                Some((Some(exp), subject, claims)) => if exp > now {
                    Ok((exp, subject, claims))
                } else {
                    Err(AuthError::TokenExpired)
                },
            },
        },
    }
}

impl CertificateSet {
    /// The index of the entry that `certificate_for` finds.
    fn find(&self, key_id: &String) -> (r: Option<usize>)
        ensures
            match r {
                Some(i) => i < self.view().len() && certificate_for(self.view(), key_id@) == Some(
                    self.view()[i as int].1,
                ),
                None => certificate_for(self.view(), key_id@) is None,
            },
    {
        let ghost ev = self.view();
        let mut i: usize = self.entries.len();
        assert(ev.take(i as int) =~= ev);
        while i > 0
            invariant
                i <= self.entries@.len(),
                ev == self.view(),
                certificate_for(ev, key_id@) == certificate_for(ev.take(i as int), key_id@),
            decreases i,
        {
            assert(ev.take(i as int).drop_last() =~= ev.take(i - 1));
            if self.entries[i - 1].0 == *key_id {
                return Some(i - 1);
            }
            i = i - 1;
        }
        assert(ev.take(0) =~= Seq::<(Seq<char>, Seq<char>)>::empty());
        None
    }
}

/// Resolves `key_id` to the PEM encoding of its RSA public key, from the
/// provider's key set (`None` when it could not be obtained).
pub fn resolve_key(certificates: &Option<CertificateSet>, key_id: &String) -> (r: Result<
    Vec<u8>,
    KeyError,
>)
    ensures
        match (r, key_result(certificates_view(*certificates), key_id@)) {
            (Ok(k), Ok(s)) => k@ == s,
            (Err(e), Err(f)) => e == f,
            _ => false,
        },
{
    match certificates {
        None => Err(KeyError::UpstreamUnavailable),
        Some(set) => match set.find(key_id) {
            None => Err(KeyError::KeyNotFound),
            Some(i) => {
                let cert = set.entries[i].1.as_str();
                if cert.unicode_len() > MAX_CERTIFICATE_CHARS {
                    return Err(KeyError::MalformedCertificate);
                }
                match rsa_public_key_pem(cert) {
                    None => Err(KeyError::MalformedCertificate),
                    Some(key) => Ok(key),
                }
            },
        },
    }
}

/// Accepts a token whose expiry lies strictly after `now`.
pub fn check_expiry(exp: Option<i64>, now: i64) -> (r: Result<i64, AuthError>)
    ensures
        r == match exp {
            None => Err(AuthError::MissingExpiry),
            Some(e) => if e > now {
                Ok(e)
            } else {
                Err(AuthError::TokenExpired)
            },
        },
{
    match exp {
        None => Err(AuthError::MissingExpiry),
        Some(e) => if e > now {
            Ok(e)
        } else {
            Err(AuthError::TokenExpired)
        },
    }
}

/// Verifies a token: its header names a key id, the provider's key set holds
/// an RSA certificate for it, the RS256 signature verifies under that key,
/// and the expiry lies strictly after `now` (Unix seconds).
pub fn valid_jwt(id_token: &str, certificates: &Option<CertificateSet>, now: i64) -> (r: Result<
    VerifiedToken,
    AuthError,
>)
    ensures
        match (r, verify_result(id_token@, certificates_view(*certificates), now)) {
            (Ok(t), Ok((exp, subject, claims))) => t.exp == exp && string_option_view(t.user_id)
                == subject && pairs_view(t.claims@) == claims,
            (Err(e), Err(f)) => e == f,
            _ => false,
        },
{
    let key_id = match decode_key_id(id_token) {
        None => return Err(AuthError::MalformedHeader),
        Some(None) => return Err(AuthError::MissingKeyId),
        Some(Some(k)) => k,
    };
    let key = match resolve_key(certificates, &key_id) {
        Err(e) => return Err(AuthError::KeyResolutionFailed(e)),
        Ok(k) => k,
    };
    proof {
        reveal_strlit("exp");
        reveal_strlit("user_id");
        assert("exp"@ =~= expiry_claim());
        assert("user_id"@ =~= subject_claim());
    }
    match decode_rs256(id_token, key.as_slice(), "exp", "user_id") {
        None => Err(AuthError::SignatureInvalid),
        Some((exp, user_id, claims)) => match check_expiry(exp, now) {
            Err(e) => Err(e),
            Ok(e) => Ok(VerifiedToken { exp: e, user_id, claims }),
        },
    }
}

} // verus!

verus! {

/// The provider's key set as last fetched, with the time of the fetch, kept
/// for at most `ttl` seconds.
pub struct KeyCache {
    pub certificates: Option<CertificateSet>,
    pub fetched_at: i64,
    pub ttl: i64,
}

/// A cached key set is fresh while less than `ttl` seconds have passed since
/// it was fetched.
pub open spec fn cache_fresh(cache: KeyCache, now: i64) -> bool {
    cache.certificates is Some && cache.fetched_at <= now && now - cache.fetched_at < cache.ttl
}

/// The key id that a token's header names, if it names one.
pub open spec fn token_key_id(token: Seq<char>) -> Option<Seq<char>> {
    match header_key_id_of(token) {
        Some(Some(k)) => Some(k),
        _ => None,
    }
}

impl KeyCache {
    /// An empty cache that keeps a key set for `ttl` seconds.
    pub fn new(ttl: i64) -> (r: KeyCache)
        ensures
            r.certificates is None,
            r.ttl == ttl,
    {
        KeyCache { certificates: None, fetched_at: 0, ttl }
    }

    /// Whether the cached key set may still be used at `now`.
    pub fn fresh(&self, now: i64) -> (r: bool)
        ensures
            r == cache_fresh(*self, now),
    {
        self.certificates.is_some() && self.fetched_at <= now && (now as i128) - (
        self.fetched_at as i128) < (self.ttl as i128)
    }

    /// Whether the key set must be fetched again before `token` is verified:
    /// the token names a key id, and the cached set is stale or lacks that id
    /// (the provider may have rotated its keys). A token that names no key id
    /// is refused without any key set, so it never causes a fetch.
    pub fn needs_refresh(&self, token: &str, now: i64) -> (r: bool)
        ensures
            r == match token_key_id(token@) {
                None => false,
                Some(k) => !cache_fresh(*self, now) || match self.certificates {
                    Some(set) => certificate_for(set.view(), k) is None,
                    None => true,
                },
            },
    {
        let key_id = match decode_key_id(token) {
            Some(Some(k)) => k,
            _ => return false,
        };
        if !self.fresh(now) {
            return true;
        }
        match &self.certificates {
            Some(set) => set.find(&key_id).is_none(),
            None => true,
        }
    }

    /// Keeps `certificates`, fetched at `now`, in place of what was cached.
    pub fn store(&mut self, certificates: CertificateSet, now: i64)
        ensures
            final(self).certificates == Some(certificates),
            final(self).fetched_at == now,
            final(self).ttl == old(self).ttl,
    {
        self.certificates = Some(certificates);
        self.fetched_at = now;
    }

    /// Drops the cached key set.
    pub fn invalidate(&mut self)
        ensures
            final(self).certificates is None,
            final(self).ttl == old(self).ttl,
    {
        self.certificates = None;
    }
}

} // verus!
