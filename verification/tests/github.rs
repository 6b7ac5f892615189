use ghfetch::github::{frame_graphql_body, most_starred_first, request_body, GitHubClient, QUERY};
use ghfetch::types::{LangConn, Repo, Username};

#[test]
fn body_frames_query_and_login() {
    let body = frame_graphql_body("\"q\"", "\"octo\"");
    assert_eq!(body, r#"{"query":"q","variables":{"u":"octo"}}"#);
}

#[test]
fn request_body_is_json_with_escaped_query() {
    let user = Username::new("Octo-Cat").unwrap();
    let body = request_body(&user).unwrap();
    let v: serde_json::Value = serde_json::from_str(&body).unwrap();
    assert_eq!(v["query"].as_str().unwrap(), QUERY);
    assert_eq!(v["variables"]["u"].as_str().unwrap(), "octo-cat");
    // The query's line breaks are escaped, not copied.
    assert!(body.contains("\\n"));
    assert!(!body.contains('\n'));
    assert!(body.ends_with(r#","variables":{"u":"octo-cat"}}"#));
}

#[test]
fn request_headers_carry_the_token() {
    let c = GitHubClient::new("SECRET-REDACTED".to_string());
    let h = c.request_headers();
    assert_eq!(h[0], ("Authorization".to_string(), "Bearer SECRET-REDACTED".to_string()));
    assert_eq!(h[1], ("Content-Type".to_string(), "application/json".to_string()));
    assert_eq!(h[2], ("User-Agent".to_string(), "portfolio-worker/1.0".to_string()));
    assert_eq!(h.len(), 3);
}

#[test]
fn most_starred_is_first_listed() {
    let repos = vec![
        Repo { name: "top".to_string(), stargazer_count: 9, url: "u1".to_string(), languages: LangConn { edges: vec![] } },
        Repo { name: "next".to_string(), stargazer_count: 3, url: "u2".to_string(), languages: LangConn { edges: vec![] } },
    ];
    let info = most_starred_first(&repos).unwrap();
    assert_eq!((info.name.as_str(), info.stars, info.url.as_str()), ("top", 9, "u1"));
    assert!(most_starred_first(&[]).is_none());
}
