use vstd::prelude::*;

use crate::auth::{
    certificate_for, certificates_view, header_key_id_of, valid_jwt, verify_result, AuthError,
    CertificateSet, KeyError, VerifiedToken,
};
use crate::error::DBError;
use crate::store::{
    lemma_register_twice, name_of, query_result, record_result, record_state, records_view,
    register_result, register_state, Database, DatabaseView, Record, Registration,
};

verus! {

/// The acting identity for a token: its subject, when the token verifies
/// and names one. Every other outcome is `Unauthorized`.
pub open spec fn identity_result(
    token: Seq<char>,
    certificates: Option<Seq<(Seq<char>, Seq<char>)>>,
    now: i64,
) -> Result<Seq<char>, DBError> {
    match verify_result(token, certificates, now) {
        Ok((_, Some(subject), _)) => Ok(subject),
        _ => Err(DBError::Unauthorized),
    }
}

/// What a registration through the repository reports, given what the store
/// reports.
pub open spec fn registration_reply(r: Result<Registration, DBError>) -> Result<(), DBError> {
    match r {
        Ok(Registration::Created) => Ok(()),
        Ok(Registration::AlreadyExists) => Err(DBError::AlreadyExists),
        Err(e) => Err(e),
    }
}

/// Verifies `token_id` and hands back the identity it asserts.
pub fn authenticate(token_id: &str, certificates: &Option<CertificateSet>, now: i64) -> (r: Result<
    String,
    DBError,
>)
    ensures
        match (r, identity_result(token_id@, certificates_view(*certificates), now)) {
            (Ok(s), Ok(t)) => s@ == t,
            (Err(e), Err(f)) => e == f,
            _ => false,
        },
{
    match valid_jwt(token_id, certificates, now) {
        Ok(VerifiedToken { exp: _, user_id: Some(user_id), claims: _ }) => Ok(user_id),
        _ => Err(DBError::Unauthorized),
    }
}

/// Opens a session on the store for the bearer of a valid token. The store
/// is not touched when the token is refused.
pub fn create_connection(
    token_id: &str,
    certificates: &Option<CertificateSet>,
    now: i64,
    db: &mut Database,
) -> (r: Result<(), DBError>)
    requires
        old(db).wf(),
    ensures
        final(db).wf(),
        verify_result(token_id@, certificates_view(*certificates), now) is Ok ==> r is Ok
            && final(db)@ == (crate::store::DatabaseView { connected: true, ..old(db)@ }),
        verify_result(token_id@, certificates_view(*certificates), now) is Err ==> r == Err::<
            (),
            DBError,
        >(DBError::Unauthorized) && final(db)@ == old(db)@,
{
    match valid_jwt(token_id, certificates, now) {
        Ok(_) => {
            db.connect();
            Ok(())
        },
        Err(_) => Err(DBError::Unauthorized),
    }
}

/// Registers the token's identity under `username`. A second registration of
/// an identity is refused with `AlreadyExists` and keeps the first name.
pub fn create_user(
    token_id: &str,
    certificates: &Option<CertificateSet>,
    now: i64,
    db: &mut Database,
    username: &str,
) -> (r: Result<(), DBError>)
    requires
        old(db).wf(),
    ensures
        final(db).wf(),
        match identity_result(token_id@, certificates_view(*certificates), now) {
            Err(e) => r == Err::<(), DBError>(e) && final(db)@ == old(db)@,
            Ok(id) => r == registration_reply(register_result(old(db)@, id)) && final(db)@
                == register_state(old(db)@, id, username@),
        },
{
    let user_id = match authenticate(token_id, certificates, now) {
        Err(e) => return Err(e),
        Ok(u) => u,
    };
    match db.create_user(user_id.as_str(), username) {
        Ok(Registration::Created) => Ok(()),
        Ok(Registration::AlreadyExists) => Err(DBError::AlreadyExists),
        Err(e) => Err(e),
    }
}

/// Records a reading for the token's identity, stamped with `now`, and
/// returns its log id.
pub fn record(
    token_id: &str,
    certificates: &Option<CertificateSet>,
    now: i64,
    db: &mut Database,
    temperature_bits: u32,
) -> (r: Result<u64, DBError>)
    requires
        old(db).wf(),
    ensures
        final(db).wf(),
        match identity_result(token_id@, certificates_view(*certificates), now) {
            Err(e) => r == Err::<u64, DBError>(e) && final(db)@ == old(db)@,
            Ok(id) => r == record_result(old(db)@, id) && final(db)@ == record_state(
                old(db)@,
                id,
                temperature_bits,
                now,
            ),
        },
{
    let user_id = match authenticate(token_id, certificates, now) {
        Err(e) => return Err(e),
        Ok(u) => u,
    };
    db.record(user_id.as_str(), temperature_bits, now)
}

/// The token's own readings in `[start, end]`, oldest first. A window that
/// does not end after it starts is refused before the token is looked at.
pub fn fetch_record(
    token_id: &str,
    certificates: &Option<CertificateSet>,
    now: i64,
    db: &Database,
    start: i64,
    end: i64,
) -> (r: Result<Vec<Record>, DBError>)
    requires
        db.wf(),
    ensures
        end <= start ==> r == Err::<Vec<Record>, DBError>(DBError::InvalidRange),
        start < end ==> match identity_result(token_id@, certificates_view(*certificates), now) {
            Err(e) => r == Err::<Vec<Record>, DBError>(e),
            Ok(id) => match (r, query_result(db@, id, start, end)) {
                (Ok(rows), Ok(q)) => records_view(rows@) == q,
                (Err(e), Err(f)) => e == f,
                _ => false,
            },
        },
{
    if end <= start {
        return Err(DBError::InvalidRange);
    }
    let user_id = match authenticate(token_id, certificates, now) {
        Err(e) => return Err(e),
        Ok(u) => u,
    };
    db.fetch_record(user_id.as_str(), start, end)
}

} // verus!

verus! {

/// A token accepted by the verifier, and so any acting identity, has an
/// expiry strictly after the current time: an expired token never succeeds.
pub proof fn lemma_expired_token_refused(
    token: Seq<char>,
    certificates: Option<Seq<(Seq<char>, Seq<char>)>>,
    now: i64,
)
    ensures
        verify_result(token, certificates, now) is Ok ==> verify_result(
            token,
            certificates,
            now,
        )->Ok_0.0 > now,
        identity_result(token, certificates, now) is Ok ==> verify_result(
            token,
            certificates,
            now,
        )->Ok_0.0 > now,
{
}

/// A token whose key id the provider's key set does not list is refused for
/// that reason, and the repository reports `Unauthorized`.
pub proof fn lemma_unknown_key_refused(
    token: Seq<char>,
    certificates: Seq<(Seq<char>, Seq<char>)>,
    key_id: Seq<char>,
    now: i64,
)
    requires
        header_key_id_of(token) == Some(Some(key_id)),
        certificate_for(certificates, key_id) is None,
    ensures
        verify_result(token, Some(certificates), now) == Err::<(i64, Option<Seq<char>>, Seq<(Seq<char>, Seq<char>)>), AuthError>(
            AuthError::KeyResolutionFailed(KeyError::KeyNotFound),
        ),
        identity_result(token, Some(certificates), now) == Err::<Seq<char>, DBError>(
            DBError::Unauthorized,
        ),
{
}

} // verus!

verus! {

/// Two registrations through the repository with tokens that assert the same
/// unregistered subject: the first succeeds, the second is refused with
/// `AlreadyExists`, and the first display name is the one kept.
pub proof fn lemma_register_twice_through_tokens(
    v: DatabaseView,
    first_token: Seq<char>,
    second_token: Seq<char>,
    certificates: Option<Seq<(Seq<char>, Seq<char>)>>,
    now: i64,
    subject: Seq<char>,
    first_name: Seq<char>,
    second_name: Seq<char>,
)
    requires
        v.connected,
        identity_result(first_token, certificates, now) == Ok::<Seq<char>, DBError>(subject),
        identity_result(second_token, certificates, now) == Ok::<Seq<char>, DBError>(subject),
        name_of(v.users, subject) is None,
    ensures
        registration_reply(register_result(v, subject)) == Ok::<(), DBError>(()),
        registration_reply(register_result(register_state(v, subject, first_name), subject))
            == Err::<(), DBError>(DBError::AlreadyExists),
        name_of(
            register_state(register_state(v, subject, first_name), subject, second_name).users,
            subject,
        ) == Some(first_name),
{
    lemma_register_twice(v, subject, first_name, second_name);
}

} // verus!
