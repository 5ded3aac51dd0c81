use vstd::prelude::*;
use crate::credentials::{Credentials, LoginResponse, credentials_of_response};

verus! {

/// How many random bytes seed one SSO session token.
pub const SSO_TOKEN_BYTES: usize = 10;

/// Delay before the next poll when the service answered in the expected
/// shape but the token is not claimed yet.
pub const CLAIM_PENDING_RETRY_MILLIS: u64 = 1000;

/// Delay before the next poll after a malformed or undecodable answer:
/// deliberately longer, so an outage is not hammered.
pub const MALFORMED_RETRY_MILLIS: u64 = 5000;

/// What base-32 encoding over the Crockford alphabet makes of a byte
/// string; a function of the bytes alone.
pub uninterp spec fn crockford_of(data: Seq<u8>) -> Seq<char>;

/// A character of the Crockford alphabet before case folding: the
/// encoder's fixed table holds only digits and uppercase letters.
pub open spec fn crockford_table_char(c: char) -> bool {
    (48 <= c as u32 && c as u32 <= 57) || (65 <= c as u32 && c as u32 <= 90)
}

/// Relies on base32::encode with the Crockford alphabet: no padding,
/// five bits per character, so the output length is the bit length
/// divided by five, rounded up; every character comes from its fixed
/// table of digits and uppercase letters; the output depends on the
/// input bytes alone.
#[verifier::external_body]
fn encode_crockford(data: &[u8]) -> (r: String)
    ensures
        r@ == crockford_of(data@),
        r@.len() == (data@.len() * 8 + 4) / 5,
        forall|i: int| 0 <= i < r@.len() ==> crockford_table_char(#[trigger] r@[i]),
{
    base32::encode(base32::Alphabet::Crockford, data)
}

/// What ASCII case folding does to one code point: uppercase letters
/// move down to lowercase, everything else stays where it is.
pub open spec fn ascii_lower_code(x: int) -> int {
    if 65 <= x && x <= 90 {
        x + 32
    } else {
        x
    }
}

/// Relies on str::to_ascii_lowercase: ASCII uppercase letters are
/// mapped to their lowercase equivalents and every other character is
/// left unchanged, one for one.
#[verifier::external_body]
fn into_ascii_lowercase(s: &str) -> (r: String)
    ensures
        r@.len() == s@.len(),
        forall|i: int|
            0 <= i < s@.len() ==> (#[trigger] r@[i]) as u32 == ascii_lower_code(s@[i] as u32 as int),
{
    s.to_ascii_lowercase()
}

/// A character of a rendered token: a digit or a lowercase ASCII
/// letter, safe inside a URL.
pub open spec fn token_char(c: char) -> bool {
    (48 <= c as u32 && c as u32 <= 57) || (97 <= c as u32 && c as u32 <= 122)
}

/// Renders a session token from its random seed: the Crockford base-32
/// form of the ten bytes, case-folded, giving sixteen characters that
/// are each a digit or a lowercase letter — unambiguous and URL-safe.
/// The seed comes from a cryptographically strong source supplied by
/// the caller; it is never persisted.
pub fn sso_token(bytes: &[u8]) -> (t: String)
    requires
        bytes@.len() == SSO_TOKEN_BYTES,
    ensures
        t@.len() == 16,
        forall|i: int|
            0 <= i < t@.len() ==> (#[trigger] t@[i]) as u32 == ascii_lower_code(
                crockford_of(bytes@)[i] as u32 as int,
            ),
        forall|i: int| 0 <= i < t@.len() ==> token_char(#[trigger] t@[i]),
{
    let encoded = encode_crockford(bytes);
    let t = into_ascii_lowercase(encoded.as_str());
    proof {
        assert forall|i: int| 0 <= i < t@.len() implies token_char(#[trigger] t@[i]) by {
            assert(crockford_table_char(encoded@[i]));
            assert(t@[i] as u32 == ascii_lower_code(encoded@[i] as u32 as int));
        }
    }
    t
}

/// The page a user must visit to claim a token: the service's web
/// origin, the fixed `sso/` segment, then the token itself.
pub fn authorization_url(web_origin: &str, token: &str) -> (r: String)
    ensures
        r@ == web_origin@ + "sso/"@ + token@,
{
    let mut url = web_origin.to_owned();
    url.append("sso/");
    url.append(token);
    url
}

/// One answer of the claim-polling endpoint, as the transport hands it
/// back.
#[derive(Debug, Clone, PartialEq, Eq)]
pub enum PollOutcome {
    /// The body decoded as the expected shape (claimed or not).
    Response(LoginResponse),
    /// The body failed to decode: a network hiccup or a transient
    /// service error.
    Malformed,
}

/// What the flow does after one poll.
#[derive(Debug, Clone, PartialEq, Eq)]
pub enum SsoStep {
    /// The token was claimed: persist these credentials and stop.
    Claimed(Credentials),
    /// Keep waiting: sleep this many milliseconds, then poll again.
    RetryAfterMillis(u64),
}

/// The decision the polling loop takes on one answer: claimed responses
/// end the wait; pending ones retry after the short delay; malformed
/// ones retry after the long delay.
pub open spec fn sso_step_spec(o: PollOutcome) -> SsoStep {
    match o {
        PollOutcome::Response(r) => {
            if r.email is Some {
                SsoStep::Claimed(credentials_of_response(r))
            } else {
                SsoStep::RetryAfterMillis(CLAIM_PENDING_RETRY_MILLIS as u64)
            }
        },
        PollOutcome::Malformed => SsoStep::RetryAfterMillis(MALFORMED_RETRY_MILLIS as u64),
    }
}

/// Decides the next move of the SSO flow from one poll answer. The flow
/// has no terminal failure: anything short of a claim is a retry.
pub fn sso_step(o: PollOutcome) -> (s: SsoStep)
    ensures
        s == sso_step_spec(o),
{
    match o {
        PollOutcome::Response(r) => {
            if r.email.is_some() {
                SsoStep::Claimed(Credentials::of_response(r))
            } else {
                SsoStep::RetryAfterMillis(CLAIM_PENDING_RETRY_MILLIS)
            }
        },
        PollOutcome::Malformed => SsoStep::RetryAfterMillis(MALFORMED_RETRY_MILLIS),
    }
}

/// A poll answer that claims the token: it decoded and carries a
/// resolvable email.
pub open spec fn poll_claims(o: PollOutcome) -> bool {
    o matches PollOutcome::Response(r) && r.email is Some
}

/// Where the flow stands after a sequence of poll answers. It starts
/// awaiting the claim and stops polling once claimed.
#[derive(Debug, Clone, PartialEq, Eq)]
pub enum SsoState {
    AwaitingClaim,
    Claimed(Credentials),
}

/// The flow replayed over a whole trace of poll answers.
pub open spec fn sso_run(trace: Seq<PollOutcome>) -> SsoState
    decreases trace.len(),
{
    if trace.len() == 0 {
        SsoState::AwaitingClaim
    } else {
        match sso_run(trace.drop_last()) {
            SsoState::Claimed(c) => SsoState::Claimed(c),
            SsoState::AwaitingClaim => match sso_step_spec(trace.last()) {
                SsoStep::Claimed(c) => SsoState::Claimed(c),
                SsoStep::RetryAfterMillis(_) => SsoState::AwaitingClaim,
            },
        }
    }
}

/// Law: as long as no poll answer claims the token, the flow keeps
/// waiting — transient errors and pending answers never end it.
pub proof fn lemma_sso_waits_without_email(trace: Seq<PollOutcome>)
    requires
        forall|i: int| 0 <= i < trace.len() ==> !poll_claims(#[trigger] trace[i]),
    ensures
        sso_run(trace) is AwaitingClaim,
    decreases trace.len(),
{
    if trace.len() > 0 {
        lemma_sso_waits_without_email(trace.drop_last());
    }
}

/// Law: the flow reaches `Claimed` exactly when some poll answer carries
/// a resolvable email, and then it carries the credentials of the first
/// such answer.
pub proof fn lemma_sso_claims_first_email(trace: Seq<PollOutcome>, k: int)
    requires
        0 <= k < trace.len(),
        poll_claims(trace[k]),
        forall|j: int| 0 <= j < k ==> !poll_claims(#[trigger] trace[j]),
    ensures
        trace[k] matches PollOutcome::Response(r) && sso_run(trace) == SsoState::Claimed(
            credentials_of_response(r),
        ),
    decreases trace.len(),
{
    if k == trace.len() - 1 {
        lemma_sso_waits_without_email(trace.drop_last());
    } else {
        lemma_sso_claims_first_email(trace.drop_last(), k);
    }
}

} // verus!
