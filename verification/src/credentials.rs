use vstd::prelude::*;
use crate::CliError;

verus! {

/// What the login and SSO claim endpoints answer. `email` doubles as the
/// success marker: a body without a resolvable email is a service-side
/// soft failure and must not be escalated.
#[derive(Debug, Clone, PartialEq, Eq)]
pub struct LoginResponse {
    pub status: String,
    pub email: Option<String>,
    pub accounts: Option<Vec<String>>,
    pub token: Option<String>,
    pub keys: Option<Vec<Vec<String>>>,
    pub servicekeys: Option<Vec<String>>,
}

/// The persisted credentials record. Created or overwritten in full on
/// every successful login; read-only for export.
#[derive(Debug, Clone, PartialEq, Eq)]
pub struct Credentials {
    pub email: Option<String>,
    pub accounts: Option<Vec<String>>,
    pub account: Option<String>,
    pub keys: Option<Vec<Vec<String>>>,
    pub servicekeys: Option<Vec<String>>,
}

/// The record a successful login stores: every field comes from the new
/// response alone, and `account` starts out unset.
pub open spec fn credentials_of_response(r: LoginResponse) -> Credentials {
    Credentials {
        email: r.email,
        accounts: r.accounts,
        account: None,
        keys: r.keys,
        servicekeys: r.servicekeys,
    }
}

impl Credentials {
    /// Builds the record that a successful login persists.
    pub fn of_response(r: LoginResponse) -> (c: Credentials)
        ensures
            c == credentials_of_response(r),
    {
        Credentials {
            email: r.email,
            accounts: r.accounts,
            account: None,
            keys: r.keys,
            servicekeys: r.servicekeys,
        }
    }

    /// A record authorizes export queries only when it holds at least one
    /// service key.
    pub open spec fn has_service_key(self) -> bool {
        match self.servicekeys {
            Some(keys) => keys.len() > 0,
            None => false,
        }
    }

    /// The key attached to export requests: the first stored service key.
    /// Its absence is a fatal precondition failure, never a retry.
    pub fn active_service_key(&self) -> (r: Result<&String, CliError>)
        ensures
            r is Ok <==> self.has_service_key(),
            r matches Ok(k) ==> k == self.servicekeys.unwrap()[0],
            r matches Err(e) ==> e == CliError::MissingServiceKey,
    {
        match &self.servicekeys {
            Some(keys) => {
                if keys.len() > 0 {
                    Ok(&keys[0])
                } else {
                    Err(CliError::MissingServiceKey)
                }
            },
            None => Err(CliError::MissingServiceKey),
        }
    }
}

/// The store holds at most one record; saving replaces it wholly, with
/// no merge against what was there.
pub open spec fn store_after_save(prior: Option<Credentials>, saved: Credentials) -> Option<
    Credentials,
> {
    Some(saved)
}

/// Law: whatever record was stored before, after a successful login the
/// store holds exactly the record built from the new response — fields
/// the new response leaves out come back cleared, not merged.
pub proof fn lemma_login_overwrites(prior: Option<Credentials>, r: LoginResponse)
    ensures
        store_after_save(prior, credentials_of_response(r)) == Some(credentials_of_response(r)),
        r.servicekeys is None ==> store_after_save(
            prior,
            credentials_of_response(r),
        ).unwrap().servicekeys is None,
        r.accounts is None ==> store_after_save(
            prior,
            credentials_of_response(r),
        ).unwrap().accounts is None,
        r.keys is None ==> store_after_save(prior, credentials_of_response(r)).unwrap().keys is None,
        store_after_save(prior, credentials_of_response(r)).unwrap().account is None,
{
}

/// The password login's first gate: any non-success status is an
/// authentication failure, reported before the body is even decoded and
/// with the stored credentials left untouched.
pub fn check_login_status(status: u16) -> (r: Result<(), CliError>)
    ensures
        r is Ok <==> status == 200,
        r matches Err(e) ==> e == CliError::AuthenticationFailed,
{
    if status == 200 {
        Ok(())
    } else {
        Err(CliError::AuthenticationFailed)
    }
}

/// Decides what a successful login response leads to: a body with a
/// resolvable email yields the record to persist; one without is a
/// silent no-op, so nothing is stored.
pub fn login_disposition(r: LoginResponse) -> (c: Option<Credentials>)
    ensures
        r.email is Some ==> c == Some(credentials_of_response(r)),
        r.email is None ==> c is None,
{
    if r.email.is_some() {
        Some(Credentials::of_response(r))
    } else {
        None
    }
}

} // verus!
