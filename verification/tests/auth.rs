use hadrond::auth::{
    Access, Claims, ClaimsV1, CredentialsError, NameMatchSegment, NameMatcher, NamespaceGrant, StreamGrant, TokenCredentials,
};
use hadrond::config::Config;
use hadrond::error::{AppError, StatusCode};
use hadrond::token::{PubSubAccess, Token, TokenSpec, TokenStatus};

fn lit(s: &str) -> NameMatchSegment {
    NameMatchSegment::Literal { literal: String::from(s) }
}

fn config() -> Config {
    Config {
        rust_log: String::from("info"),
        client_port: 7000,
        node_name: String::from("node-0"),
        repl_set_name: String::from("rs0"),
        leader_name: String::from("node-0"),
        metadata_repl_set_name: String::from("meta"),
        storage_data_path: String::from("/usr/local/hadron/data"),
    }
}

//////////////////////////////////////////////////////////////////////////
// Literals //////////////////////////////////////////////////////////////

#[test]
fn matches_single_lit_single_seg() {
    assert_eq!(NameMatcher(vec![lit("service0")]).has_match("service0"), true);
}

#[test]
fn fails_single_lit_single_seg() {
    assert_eq!(NameMatcher(vec![lit("service0")]).has_match("service0task1"), false);
}

#[test]
fn fails_single_lit_multi_seg() {
    assert_eq!(NameMatcher(vec![lit("service0")]).has_match("service0.task1"), false);
}

#[test]
fn fails_multi_lit_single_seg() {
    assert_eq!(NameMatcher(vec![lit("service0"), lit("task1")]).has_match("service0"), false);
}

//////////////////////////////////////////////////////////////////////////
// Wildcard segments /////////////////////////////////////////////////////

#[test]
fn matches_single_wild_single_seg() {
    assert_eq!(NameMatcher(vec![NameMatchSegment::Wild]).has_match("service0"), true);
}

#[test]
fn matches_wild_lit_multi_seg() {
    assert_eq!(NameMatcher(vec![NameMatchSegment::Wild, lit("task1")]).has_match("service0.task1"), true);
}

#[test]
fn matches_lit_wild_lit_multi_seg() {
    let m = NameMatcher(vec![lit("service0"), NameMatchSegment::Wild, lit("sub2")]);
    assert_eq!(m.has_match("service0.task1.sub2"), true);
}

#[test]
fn fails_lit_wild_lit_multi_seg() {
    let m = NameMatcher(vec![lit("service0"), NameMatchSegment::Wild, lit("sub1")]);
    assert_eq!(m.has_match("service0.task1.sub2"), false);
}

#[test]
fn fails_single_wild_multi_seg() {
    assert_eq!(NameMatcher(vec![NameMatchSegment::Wild]).has_match("service0.task1"), false);
}

//////////////////////////////////////////////////////////////////////////
// Remaining token ///////////////////////////////////////////////////////

#[test]
fn matches_remaining_single_seg() {
    assert_eq!(NameMatcher(vec![NameMatchSegment::Remaining]).has_match("service0"), true);
}

#[test]
fn matches_remaining_multi_seg() {
    assert_eq!(NameMatcher(vec![NameMatchSegment::Remaining]).has_match("service0.task1.sub2"), true);
}

#[test]
fn matches_lit_wild_remaining_multi_seg() {
    let m = NameMatcher(vec![lit("service0"), NameMatchSegment::Wild, NameMatchSegment::Remaining]);
    assert_eq!(m.has_match("service0.task1.sub2"), true);
}

#[test]
fn fails_lit_wild_remaining_multi_seg() {
    let m = NameMatcher(vec![lit("service0"), NameMatchSegment::Wild, NameMatchSegment::Remaining]);
    assert_eq!(m.has_match("service0.task1"), false);
}

//////////////////////////////////////////////////////////////////////////
// Claims ////////////////////////////////////////////////////////////////

fn limited(ns: &str, streams: Option<Vec<StreamGrant>>, schema: bool) -> NamespaceGrant {
    NamespaceGrant::Limited { namespace: String::from(ns), messaging: None, endpoints: None, streams, schema }
}

#[test]
fn claims_all_permits_everything() {
    let claims = Claims::V1(ClaimsV1::All);
    assert!(claims.check_stream_pub_auth("ns", "events").is_ok());
    assert!(claims.check_schema_auth("ns").is_ok());
}

#[test]
fn claims_metrics_permits_nothing() {
    let claims = Claims::V1(ClaimsV1::Metrics);
    assert!(matches!(claims.check_stream_pub_auth("ns", "events"), Err(AppError::Unauthorized)));
    assert!(matches!(claims.check_schema_auth("ns"), Err(AppError::Unauthorized)));
}

#[test]
fn full_grant_permits_its_namespace_only() {
    let claims = Claims::V1(ClaimsV1::Namespaced(vec![NamespaceGrant::Full { namespace: String::from("ns") }]));
    assert!(claims.check_stream_pub_auth("ns", "events").is_ok());
    assert!(claims.check_schema_auth("ns").is_ok());
    assert!(matches!(claims.check_stream_pub_auth("other", "events"), Err(AppError::Unauthorized)));
    assert!(matches!(claims.check_schema_auth("other"), Err(AppError::Unauthorized)));
}

#[test]
fn limited_grant_needs_matching_publishing_stream_grant() {
    let grant = StreamGrant { matcher: NameMatcher(vec![lit("orders"), NameMatchSegment::Remaining]), access: Access::Pub };
    let claims = Claims::V1(ClaimsV1::Namespaced(vec![limited("ns", Some(vec![grant]), false)]));
    assert!(claims.check_stream_pub_auth("ns", "orders.eu").is_ok());
    assert!(claims.check_stream_pub_auth("ns", "billing.eu").is_err());
    assert!(claims.check_stream_pub_auth("other", "orders.eu").is_err());
    assert!(claims.check_schema_auth("ns").is_err());
}

#[test]
fn limited_grant_with_subscribe_access_cannot_publish() {
    let grant = StreamGrant { matcher: NameMatcher(vec![NameMatchSegment::Remaining]), access: Access::Sub };
    let claims = Claims::V1(ClaimsV1::Namespaced(vec![limited("ns", Some(vec![grant]), true)]));
    assert!(claims.check_stream_pub_auth("ns", "orders").is_err());
    assert!(claims.check_schema_auth("ns").is_ok());
}

#[test]
fn limited_grant_without_streams_cannot_publish() {
    let claims = Claims::V1(ClaimsV1::Namespaced(vec![limited("ns", None, false)]));
    assert!(claims.check_stream_pub_auth("ns", "orders").is_err());
}

#[test]
fn access_can_publish() {
    assert!(Access::Pub.can_publish());
    assert!(Access::All.can_publish());
    assert!(!Access::Sub.can_publish());
}

#[test]
fn unauthorized_maps_to_unauthenticated_status() {
    let status = AppError::Unauthorized.into_status();
    assert_eq!(status.code, StatusCode::Unauthenticated);
    assert_eq!(status.message, "unauthorized to perform the requested action");
    let status = AppError::InvalidInput(String::from("bad")).into_status();
    assert_eq!(status.code, StatusCode::InvalidArgument);
    assert_eq!(status.message, "validation error: bad");
}

//////////////////////////////////////////////////////////////////////////
// Credentials ///////////////////////////////////////////////////////////

#[test]
fn credentials_from_bearer_header() {
    let creds = TokenCredentials::from_auth_header(b"bearer abc".to_vec(), &config()).ok().unwrap();
    assert_eq!(creds.id, 0);
    assert_eq!(creds.auth_header, b"bearer abc".to_vec());
}

#[test]
fn credentials_errors() {
    assert!(matches!(TokenCredentials::from_auth_header(b"basic abc".to_vec(), &config()), Err(CredentialsError::MissingBearerPrefix)));
    assert!(matches!(TokenCredentials::from_auth_header(b"bearer ".to_vec(), &config()), Err(CredentialsError::NoToken)));
    assert!(matches!(TokenCredentials::from_auth_header(vec![98, 10], &config()), Err(CredentialsError::NotAString)));
    assert_eq!(CredentialsError::NoToken.message(), "invalid credentials provided, no token detected");
}

//////////////////////////////////////////////////////////////////////////
// Tokens ////////////////////////////////////////////////////////////////

fn token(all: bool, publish: Vec<&str>, sub: Vec<&str>) -> Token {
    let none = || PubSubAccess { publish: vec![], sub: vec![] };
    Token {
        name: Some(String::from("t")),
        metadata: vec![],
        spec: TokenSpec {
            cluster: String::from("c"),
            all,
            exchanges: none(),
            endpoints: none(),
            streams: PubSubAccess {
                publish: publish.into_iter().map(String::from).collect(),
                sub: sub.into_iter().map(String::from).collect(),
            },
        },
        status: Some(TokenStatus { secret_name: String::from("t-secret"), token_id: String::from("7") }),
    }
}

#[test]
fn token_grants_by_name() {
    let t = token(false, vec!["orders"], vec!["billing"]);
    assert!(t.check_stream_pub_auth("orders").is_ok());
    assert!(t.check_stream_pub_auth("billing").is_err());
    assert!(t.check_stream_sub_auth("billing").is_ok());
    assert!(t.check_stream_sub_auth("orders").is_err());
}

#[test]
fn token_with_all_grants_everything() {
    let t = token(true, vec![], vec![]);
    assert!(t.check_stream_pub_auth("anything").is_ok());
    assert!(t.check_stream_sub_auth("anything").is_ok());
}
