use std::str::FromStr;

use curl_parser::ParsedRequest;
use curl_parser::TemplateContext;

#[test]
fn parse_curl_1_should_work() {
    let input = r#"curl \
          -X PATCH \
          -d '{"visibility":"private"}' \
          -H "Accept: application/vnd.github+json" \
          -H "Authorization: Bearer {{ token }}"\
          -H "X-GitHub-Api-Version: 2022-11-28" \
          https://api.github.com/user/email/visibility "#;
    let mut ctx = TemplateContext::new();
    ctx.set("token", "abcd1234");
    let parsed = ParsedRequest::load(input, &ctx).unwrap();
    assert_eq!(parsed.method.as_str(), "PATCH");
    assert_eq!(parsed.url, "https://api.github.com/user/email/visibility");
    assert_eq!(
        parsed.headers.get("Accept").unwrap().as_str(),
        "application/vnd.github+json"
    );
    assert_eq!(parsed.body, vec!["{\"visibility\":\"private\"}"]);
}

#[test]
fn parse_curl_2_should_work() {
    let input = r#"curl \
        -X POST \
        -H "Accept: application/vnd.github+json" \
        -H "Authorization: Bearer {{ token }}"\
        -H "X-GitHub-Api-Version: 2022-11-28" \
        -L "https://api.github.com/user/emails" \
        -d '{"emails":["octocat@github.com","mona@github.com","octocat@octocat.org"]}'"#;
    let mut ctx = TemplateContext::new();
    ctx.set("token", "abcd1234");
    let parsed = ParsedRequest::load(input, &ctx).unwrap();
    assert_eq!(parsed.method.as_str(), "POST");
    assert_eq!(parsed.url, "https://api.github.com/user/emails");
    assert_eq!(
        parsed.headers.get("Authorization").unwrap().as_str(),
        "Bearer abcd1234"
    );
    assert_eq!(
        parsed.body,
        vec![r#"{"emails":["octocat@github.com","mona@github.com","octocat@octocat.org"]}"#]
    );
}

#[test]
fn parse_curl_3_should_work() {
    let input = r#"curl https://httpbin.org/basic-auth/testuser/testpass \
        -u {{ username }}:{{ password }} \
        -H "Accept: application/json""#;

    let mut ctx = TemplateContext::new();
    ctx.set("username", "testuser");
    ctx.set("password", "testpass");
    let parsed = ParsedRequest::load(input, &ctx).unwrap();
    assert_eq!(parsed.method.as_str(), "GET");
    assert_eq!(parsed.url, "https://httpbin.org/basic-auth/testuser/testpass");
    assert_eq!(
        parsed.headers.get("Authorization").unwrap().as_str(),
        "Basic dGVzdHVzZXI6dGVzdHBhc3M="
    );
}

#[test]
fn parse_curl_4_should_work() {
    let input = r#"curl "https://ifconfig.me/""#;

    let parsed = ParsedRequest::from_str(input).unwrap();
    assert_eq!(parsed.method.as_str(), "GET");
    assert_eq!(parsed.url, "https://ifconfig.me/");
}

#[test]
fn parse_curl_5_should_work() {
    let input = r#"curl 'ifconfig.me'"#;

    let parsed = ParsedRequest::from_str(input).unwrap();
    assert_eq!(parsed.method.as_str(), "GET");
    assert_eq!(parsed.url, "http://ifconfig.me/");
}

#[test]
fn parse_curl_with_insecure_should_work() {
    let input = r#"#this is good
        curl -k 'https://example.com/'"#;

    let parsed: ParsedRequest = input.parse().unwrap();
    assert_eq!(parsed.method.as_str(), "GET");
    assert_eq!(parsed.url, "https://example.com/");
    assert!(parsed.insecure);
}

#[test]
fn parse_curl_with_body_should_work() {
    let input = r#"curl --location https://example.com --header 'Content-Type: application/json' -d '{"-name":"--John"," --age":30}'"#;
    let parsed = ParsedRequest::from_str(input).unwrap();
    assert_eq!(parsed.method.as_str(), "POST");
    assert_eq!(parsed.body, vec!["{\"-name\":\"--John\",\" --age\":30}"]);
}

#[test]
fn parse_curl_with_escaped_json_in_header() {
    let input = r#"curl https://api.github.com/repos/owner/repo \
            -H "X-GitHub-Api-Version: 2022-11-28" \
            -H "X-Custom-Metadata: {\"version\":\"1.0.0\",\"client\":\"rust\"}" \
            -H "Accept: application/json""#;
    let parsed = ParsedRequest::from_str(input).unwrap();
    assert_eq!(parsed.method.as_str(), "GET");
    assert_eq!(parsed.url, "https://api.github.com/repos/owner/repo");

    let header_value = parsed.headers.get("X-Custom-Metadata");
    assert!(header_value.is_some());
    let header_str = header_value.unwrap().as_str();
    assert_eq!(header_str, r#"{"version":"1.0.0","client":"rust"}"#);
}
