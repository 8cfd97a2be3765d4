use campaign::platform::{
    bearer_header, heartbeat_call, init_failed_call, patch_campaign_call, release_lease_call,
    status_outcome, HttpMethod, PlatformInternalError,
};

#[test]
fn report_init_failed_sends_bearer_and_reason() {
    let call = init_failed_call("http://platform", "abc");
    assert_eq!(call.method, HttpMethod::Post);
    assert_eq!(call.url, "http://platform/internal/platform/campaign/abc/init-failed");
    assert_eq!(bearer_header("secret"), "Bearer secret");
}

#[test]
fn report_init_failed_returns_status_error_on_5xx() {
    assert_eq!(status_outcome(500), Err(PlatformInternalError::Status { status: 500 }));
    assert_eq!(status_outcome(200), Ok(()));
    assert_eq!(status_outcome(204), Ok(()));
    assert_eq!(status_outcome(299), Ok(()));
    assert_eq!(status_outcome(300), Err(PlatformInternalError::Status { status: 300 }));
    assert_eq!(status_outcome(199), Err(PlatformInternalError::Status { status: 199 }));
}

#[test]
fn patch_campaign_sends_bearer_and_uses_patch() {
    let call = patch_campaign_call("http://platform", "abc");
    assert_eq!(call.method, HttpMethod::Patch);
    assert_eq!(call.url, "http://platform/internal/platform/campaign/abc");
}

#[test]
fn release_lease_sends_bearer_and_uses_delete() {
    let call = release_lease_call("http://platform", "abc");
    assert_eq!(call.method, HttpMethod::Delete);
    assert_eq!(call.url, "http://platform/internal/platform/campaign/abc/lease");
}

#[test]
fn heartbeat_sends_bearer_and_campaign_list() {
    let call = heartbeat_call("http://platform");
    assert_eq!(call.method, HttpMethod::Post);
    assert_eq!(call.url, "http://platform/internal/platform/heartbeat");
}
