//! What the dashboard service is asked for a public link, and what its answers amount to.

use vstd::prelude::*;

verus! {

/// The service's answer when it has made a dashboard public.
pub struct PublicDashboardCreated {
    pub access_token: String,
}

/// The service's answer when asked for the public state of a dashboard.
pub struct PublicDashboardStatus {
    pub access_token: String,
    pub is_enabled: bool,
}

/// The service's own account of a request that it refused.
#[derive(Clone, Debug)]
pub struct ErrorResponse {
    pub status_code: u16,
    pub message_id: String,
    pub message: String,
}

/// Why no public link could be had.
#[derive(Clone, Debug)]
pub enum Error {
    /// The request did not reach the service, or no answer came back.
    Network,
    /// The service answered, but not with what was asked for.
    Api(Option<ErrorResponse>),
}

/// The status with which the service reports success.
pub const STATUS_OK: u16 = 200;

/// The status with which a failed provisioning is reported.
pub const STATUS_FAILED: u16 = 500;

/// The address under which the service keeps the public state of dashboard `uid`.
pub open spec fn endpoint_of(domain: Seq<char>, uid: Seq<char>) -> Seq<char> {
    domain + "/api/dashboards/uid/"@ + uid + "/public-dashboards"@
}

/// The public address of the dashboard that `access_token` opens.
pub open spec fn public_url_of(domain: Seq<char>, access_token: Seq<char>) -> Seq<char> {
    domain + "/public-dashboards/"@ + access_token
}

/// Builds the address under which the service keeps the public state of dashboard `uid`.
pub fn public_dashboards_endpoint(domain: &str, uid: &str) -> (url: String)
    ensures
        url@ == endpoint_of(domain@, uid@),
{
    let mut url = domain.to_owned();
    url.append("/api/dashboards/uid/");
    url.append(uid);
    url.append("/public-dashboards");
    url
}

/// Builds the public address of the dashboard that `access_token` opens.
pub fn public_url(domain: &str, access_token: &str) -> (url: String)
    ensures
        url@ == public_url_of(domain@, access_token@),
{
    let mut url = domain.to_owned();
    url.append("/public-dashboards/");
    url.append(access_token);
    url
}

/// Tells from the status of an answer what its body holds: the payload that was asked for,
/// or the service's account of a refusal.
pub fn carries_payload(status: u16) -> (yes: bool)
    ensures
        yes == (status == STATUS_OK),
{
    status == STATUS_OK
}

/// What an answer of the service amounts to. With the success status it is the payload, or
/// an error without details where the body held none. With any other status it is an error
/// with the service's account of it, where the body held one.
pub fn settle<T>(status: u16, payload: Option<T>, problem: Option<ErrorResponse>) -> (outcome:
    Result<T, Error>)
    ensures
        outcome == (if status == STATUS_OK {
            match payload {
                Some(p) => Ok::<T, Error>(p),
                None => Err(Error::Api(None)),
            }
        } else {
            Err(Error::Api(problem))
        }),
{
    if carries_payload(status) {
        match payload {
            Some(p) => Ok(p),
            None => Err(Error::Api(None)),
        }
    } else {
        Err(Error::Api(problem))
    }
}

/// The step after the service was asked to make a dashboard public. Where it did, the public
/// address is known. Where it did not, for whatever reason, there is none yet and the
/// dashboard's public state is to be looked up.
pub fn after_create(domain: &str, created: Result<PublicDashboardCreated, Error>) -> (url: Option<
    String,
>)
    ensures
        (match created {
            Ok(answer) => url matches Some(u) && u@ == public_url_of(
                domain@,
                answer.access_token@,
            ),
            Err(_) => url is None,
        }),
{
    match created {
        Ok(answer) => Some(public_url(domain, answer.access_token.as_str())),
        Err(_) => None,
    }
}

/// The step after the public state of a dashboard was looked up: its public address, or the
/// error that the lookup ended in.
pub fn after_lookup(domain: &str, found: Result<PublicDashboardStatus, Error>) -> (outcome: Result<
    String,
    Error,
>)
    ensures
        (match found {
            Ok(answer) => outcome matches Ok(u) && u@ == public_url_of(
                domain@,
                answer.access_token@,
            ),
            Err(error) => outcome == Err::<String, Error>(error),
        }),
{
    match found {
        Ok(answer) => Ok(public_url(domain, answer.access_token.as_str())),
        Err(error) => Err(error),
    }
}

/// The status and the message with which a failed provisioning is reported.
pub fn failure_reply(error: &Error) -> (reply: (u16, String))
    ensures
        reply.0 == STATUS_FAILED,
        reply.1@ == (match *error {
            Error::Network => "Network error"@,
            Error::Api(_) => "API error"@,
        }),
{
    match error {
        Error::Network => (STATUS_FAILED, "Network error".to_owned()),
        Error::Api(_) => (STATUS_FAILED, "API error".to_owned()),
    }
}

} // verus!
