use gfp::grafana::after_create;
use gfp::grafana::after_lookup;
use gfp::grafana::failure_reply;
use gfp::grafana::public_dashboards_endpoint;
use gfp::grafana::public_url;
use gfp::grafana::settle;
use gfp::grafana::Error;
use gfp::grafana::ErrorResponse;
use gfp::grafana::PublicDashboardCreated;
use gfp::grafana::PublicDashboardStatus;

fn refusal() -> ErrorResponse {
    ErrorResponse {
        status_code: 404,
        message_id: "publicdashboards.notFound".to_string(),
        message: "Public dashboard not found".to_string(),
    }
}

#[test]
fn endpoint_names_the_dashboard() {
    assert_eq!(
        public_dashboards_endpoint("https://grafana.example.org", "abc123"),
        "https://grafana.example.org/api/dashboards/uid/abc123/public-dashboards"
    );
    assert_eq!(public_dashboards_endpoint("", ""), "/api/dashboards/uid//public-dashboards");
}

#[test]
fn public_url_ends_in_the_token() {
    assert_eq!(
        public_url("https://grafana.example.org", "0123456789abcdef"),
        "https://grafana.example.org/public-dashboards/0123456789abcdef"
    );
    assert_eq!(public_url("", ""), "/public-dashboards/");
}

#[test]
fn success_with_a_payload_is_the_payload() {
    let outcome = settle(200, Some(7u32), None);
    assert!(matches!(outcome, Ok(7)));
    // what the body would have been as an account of a refusal does not matter
    let outcome = settle(200, Some(7u32), Some(refusal()));
    assert!(matches!(outcome, Ok(7)));
}

#[test]
fn success_without_a_payload_is_an_error_without_details() {
    let outcome: Result<u32, Error> = settle(200, None, Some(refusal()));
    assert!(matches!(outcome, Err(Error::Api(None))));
}

#[test]
fn any_other_status_is_an_error_with_the_account_given() {
    for status in [0u16, 199, 201, 204, 301, 400, 401, 404, 500, u16::MAX] {
        let outcome = settle(status, Some(7u32), Some(refusal()));
        match outcome {
            Err(Error::Api(Some(account))) => {
                assert_eq!(account.status_code, 404);
                assert_eq!(account.message_id, "publicdashboards.notFound");
                assert_eq!(account.message, "Public dashboard not found");
            }
            _ => panic!("status {status} was not settled as a refusal"),
        }
        let outcome = settle(status, Some(7u32), None);
        assert!(matches!(outcome, Err(Error::Api(None))));
    }
}

#[test]
fn created_dashboard_gives_its_url() {
    let created = Ok(PublicDashboardCreated { access_token: "tok".to_string() });
    assert_eq!(after_create("http://g", created), Some("http://g/public-dashboards/tok".to_string()));
}

#[test]
fn failed_creation_asks_for_a_lookup() {
    assert_eq!(after_create("http://g", Err(Error::Network)), None);
    assert_eq!(after_create("http://g", Err(Error::Api(None))), None);
    assert_eq!(after_create("http://g", Err(Error::Api(Some(refusal())))), None);
}

#[test]
fn found_dashboard_gives_its_url() {
    let found = Ok(PublicDashboardStatus { access_token: "tok".to_string(), is_enabled: true });
    assert!(matches!(after_lookup("http://g", found), Ok(url) if url == "http://g/public-dashboards/tok"));
    // the link is handed out whether or not sharing is switched on
    let found = Ok(PublicDashboardStatus { access_token: "tok".to_string(), is_enabled: false });
    assert!(matches!(after_lookup("http://g", found), Ok(url) if url == "http://g/public-dashboards/tok"));
}

#[test]
fn failed_lookup_hands_its_error_on() {
    assert!(matches!(after_lookup("http://g", Err(Error::Network)), Err(Error::Network)));
    assert!(matches!(after_lookup("http://g", Err(Error::Api(None))), Err(Error::Api(None))));
    match after_lookup("http://g", Err(Error::Api(Some(refusal())))) {
        Err(Error::Api(Some(account))) => assert_eq!(account.status_code, 404),
        _ => panic!("the account of the refusal was lost"),
    }
}

#[test]
fn failures_are_reported_as_server_errors() {
    assert_eq!(failure_reply(&Error::Network), (500, "Network error".to_string()));
    assert_eq!(failure_reply(&Error::Api(None)), (500, "API error".to_string()));
    assert_eq!(failure_reply(&Error::Api(Some(refusal()))), (500, "API error".to_string()));
}
