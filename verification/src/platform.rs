//! The calls this shard makes to the platform tier's internal API: their
//! methods, URLs, authorization header, and how a response status is read.
//! The HTTP client that sends them lives in the process around the
//! library.
use vstd::prelude::*;

verus! {

/// The HTTP methods the internal API uses.
#[derive(Debug, Clone, Copy, PartialEq, Eq, Structural)]
pub enum HttpMethod {
    Post,
    Patch,
    Delete,
}

/// One call to the platform: its method and full URL.
#[derive(Debug, Clone, PartialEq, Eq)]
pub struct PlatformCall {
    pub method: HttpMethod,
    pub url: String,
}

/// Why a platform call failed.
#[derive(Debug, Clone, PartialEq, Eq)]
pub enum PlatformInternalError {
    /// The request did not complete (the transport's message).
    Transport(String),
    /// The platform answered with a status outside 200..=299.
    Status { status: u16 },
}

/// `base` followed by `a` and `b`.
fn join3(base: &str, a: &str, b: &str) -> (s: String)
    ensures
        s@ == base@ + a@ + b@,
{
    let mut s = base.to_owned();
    s.append(a);
    s.append(b);
    s
}

/// `PATCH {base}/internal/platform/campaign/{id}`: mirror changed metadata.
pub fn patch_campaign_call(base_url: &str, campaign_id: &str) -> (c: PlatformCall)
    ensures
        c.method == HttpMethod::Patch,
        c.url@ == base_url@ + "/internal/platform/campaign/"@ + campaign_id@,
{
    PlatformCall { method: HttpMethod::Patch, url: join3(base_url, "/internal/platform/campaign/", campaign_id) }
}

/// `POST {base}/internal/platform/campaign/{id}/init-failed`: report a
/// failed wizard completion.
pub fn init_failed_call(base_url: &str, campaign_id: &str) -> (c: PlatformCall)
    ensures
        c.method == HttpMethod::Post,
        c.url@ == base_url@ + "/internal/platform/campaign/"@ + campaign_id@ + "/init-failed"@,
{
    let mut url = join3(base_url, "/internal/platform/campaign/", campaign_id);
    url.append("/init-failed");
    PlatformCall { method: HttpMethod::Post, url }
}

/// `POST {base}/internal/platform/heartbeat`: report the loaded campaigns.
pub fn heartbeat_call(base_url: &str) -> (c: PlatformCall)
    ensures
        c.method == HttpMethod::Post,
        c.url@ == base_url@ + "/internal/platform/heartbeat"@,
{
    let mut url = base_url.to_owned();
    url.append("/internal/platform/heartbeat");
    PlatformCall { method: HttpMethod::Post, url }
}

/// `DELETE {base}/internal/platform/campaign/{id}/lease`: report an idle
/// release.
pub fn release_lease_call(base_url: &str, campaign_id: &str) -> (c: PlatformCall)
    ensures
        c.method == HttpMethod::Delete,
        c.url@ == base_url@ + "/internal/platform/campaign/"@ + campaign_id@ + "/lease"@,
{
    let mut url = join3(base_url, "/internal/platform/campaign/", campaign_id);
    url.append("/lease");
    PlatformCall { method: HttpMethod::Delete, url }
}

/// The authorization header value every call carries.
pub fn bearer_header(bearer: &str) -> (h: String)
    ensures
        h@ == "Bearer "@ + bearer@,
{
    let mut h = "Bearer ".to_owned();
    h.append(bearer);
    h
}

/// Read a response status: success (200..=299) or a status error.
pub fn status_outcome(status: u16) -> (r: Result<(), PlatformInternalError>)
    ensures
        r == (if 200 <= status <= 299 {
            Ok::<(), PlatformInternalError>(())
        } else {
            Err::<(), PlatformInternalError>(PlatformInternalError::Status { status })
        }),
{
    if 200 <= status && status <= 299 {
        Ok(())
    } else {
        Err(PlatformInternalError::Status { status })
    }
}

} // verus!
