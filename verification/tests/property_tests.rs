use std::str::FromStr;

use curl_parser::Error;
use curl_parser::ParsedRequest;
use curl_parser::TemplateContext;

#[test]
fn parse_twice_is_identical() {
    let input = "curl -X PUT example.com/p -H 'X-A: 1' -d k=v -k";
    let a = ParsedRequest::parse(input).unwrap();
    let b = ParsedRequest::parse(input).unwrap();
    assert_eq!(a.method.as_str(), b.method.as_str());
    assert_eq!(a.url, b.url);
    assert_eq!(a.body, b.body);
    assert_eq!(a.insecure, b.insecure);
    assert_eq!(
        a.headers.get("X-A").map(|s| s.as_str()),
        b.headers.get("X-A").map(|s| s.as_str())
    );
    assert_eq!(a.body().unwrap(), b.body().unwrap());
}

#[test]
fn no_body_no_method_defaults_to_get() {
    let parsed = ParsedRequest::parse("curl example.com").unwrap();
    assert_eq!(parsed.method.as_str(), "GET");
    assert!(parsed.headers.get("Content-Type").is_none());
    assert_eq!(parsed.headers.get("Accept").unwrap().as_str(), "*/*");
}

#[test]
fn body_without_method_upgrades_to_post() {
    let parsed = ParsedRequest::parse("curl example.com -d a=b").unwrap();
    assert_eq!(parsed.method.as_str(), "POST");
    assert_eq!(
        parsed.headers.get("Content-Type").unwrap().as_str(),
        "application/x-www-form-urlencoded"
    );
}

#[test]
fn explicit_get_with_body_stays_get() {
    let parsed = ParsedRequest::parse("curl -X GET example.com -d a=b").unwrap();
    assert_eq!(parsed.method.as_str(), "GET");
}

#[test]
fn accept_header_is_defaulted_not_overwritten() {
    let defaulted = ParsedRequest::parse("curl example.com").unwrap();
    assert_eq!(defaulted.headers.get("accept").unwrap().as_str(), "*/*");

    let explicit = ParsedRequest::parse("curl example.com -H 'Accept: text/html'").unwrap();
    assert_eq!(explicit.headers.get("accept").unwrap().as_str(), "text/html");
}

#[test]
fn later_header_with_same_name_wins() {
    let parsed = ParsedRequest::parse("curl example.com -H 'X: a' -H 'X: b'").unwrap();
    assert_eq!(parsed.headers.get("X").unwrap().as_str(), "b");
}

#[test]
fn header_names_are_case_insensitive() {
    let parsed = ParsedRequest::parse("curl example.com -H 'X-Thing: a' -H 'x-thing: b'").unwrap();
    assert_eq!(parsed.headers.get("X-THING").unwrap().as_str(), "b");
}

#[test]
fn url_scheme_is_defaulted() {
    let bare = ParsedRequest::parse("curl example.com/p").unwrap();
    assert_eq!(bare.url, "http://example.com/p");

    let https = ParsedRequest::parse("curl 'https://example.com/p'").unwrap();
    assert_eq!(https.url, "https://example.com/p");
}

#[test]
fn url_slash_is_inserted_before_a_query() {
    let bare = ParsedRequest::parse("curl example.com?a=b").unwrap();
    assert_eq!(bare.url, "http://example.com/?a=b");

    let https = ParsedRequest::parse("curl 'https://example.com?x=1'").unwrap();
    assert_eq!(https.url, "https://example.com/?x=1");
}

#[test]
fn location_overrides_positional_url() {
    let parsed = ParsedRequest::parse("curl https://a.test -L https://b.test").unwrap();
    assert_eq!(parsed.url, "https://b.test");
}

#[test]
fn basic_auth_becomes_authorization_header() {
    let parsed = ParsedRequest::parse("curl -u user:pass https://h").unwrap();
    assert_eq!(
        parsed.headers.get("Authorization").unwrap().as_str(),
        "Basic dXNlcjpwYXNz"
    );
}

#[test]
fn form_body_round_trip() {
    let parsed = ParsedRequest::parse("curl example.com -d name=John -d age=30").unwrap();
    assert_eq!(parsed.body().unwrap(), Some("name=John&age=30".to_string()));
}

#[test]
fn form_body_percent_encodes() {
    let parsed = ParsedRequest::parse("curl example.com -d 'na me=Jo&hn'").unwrap();
    assert_eq!(parsed.body().unwrap(), Some("na+me=Jo%26hn".to_string()));
}

#[test]
fn form_fragment_without_equals_is_a_bare_key() {
    let parsed = ParsedRequest::parse("curl example.com -d flag").unwrap();
    assert_eq!(parsed.body().unwrap(), Some("flag=".to_string()));
}

#[test]
fn json_body_keeps_only_the_last_fragment() {
    let parsed = ParsedRequest::parse(
        r#"curl example.com -H 'Content-Type: application/json' -d '{"a":1}' -d '{"b":2}'"#,
    )
    .unwrap();
    assert_eq!(parsed.body().unwrap(), Some(r#"{"b":2}"#.to_string()));
}

#[test]
fn empty_body_yields_none() {
    let parsed = ParsedRequest::parse("curl example.com").unwrap();
    assert_eq!(parsed.body().unwrap(), None);
}

#[test]
fn unsupported_content_type_is_an_error_not_a_crash() {
    let parsed =
        ParsedRequest::parse("curl example.com -H 'Content-Type: text/plain' -d a=b").unwrap();
    assert!(matches!(
        parsed.body(),
        Err(Error::UnsupportedContentType { .. })
    ));
}

#[test]
fn templating_substitutes_variables() {
    let mut ctx = TemplateContext::new();
    ctx.set("token", "T");
    let parsed =
        ParsedRequest::load("curl -H 'Authorization: Bearer {{ token }}' https://h", &ctx).unwrap();
    assert_eq!(parsed.headers.get("Authorization").unwrap().as_str(), "Bearer T");
}

#[test]
fn load_without_variables_matches_parse() {
    let input = "curl -X PUT example.com -H 'X: y' -d a=b";
    let via_load = ParsedRequest::load(input, &TemplateContext::new()).unwrap();
    let via_parse = ParsedRequest::parse(input).unwrap();
    assert_eq!(via_load.method.as_str(), via_parse.method.as_str());
    assert_eq!(via_load.url, via_parse.url);
    assert_eq!(via_load.body, via_parse.body);
}

#[test]
fn escaped_quote_in_header_value_renders_literally() {
    let input = r#"curl example.com -H "X-Q: say \"hi\"""#;
    let parsed = ParsedRequest::from_str(input).unwrap();
    assert_eq!(parsed.headers.get("X-Q").unwrap().as_str(), r#"say "hi""#);
}

#[test]
fn multiline_single_quoted_body_is_kept_verbatim() {
    let input = "curl example.com -H 'Content-Type: application/json' -d '{\n  \"a\": 1\n}'";
    let parsed = ParsedRequest::from_str(input).unwrap();
    assert_eq!(parsed.body, vec!["{\n  \"a\": 1\n}"]);
}

#[test]
fn header_flag_without_value_is_a_grammar_error() {
    assert!(matches!(
        ParsedRequest::parse("curl -H"),
        Err(Error::Grammar { .. })
    ));
}

#[test]
fn unterminated_quote_is_a_grammar_error() {
    assert!(matches!(
        ParsedRequest::parse("curl 'https://example.com"),
        Err(Error::Grammar { .. })
    ));
}

#[test]
fn unknown_flag_is_a_grammar_error() {
    assert!(matches!(
        ParsedRequest::parse("curl --frobnicate example.com"),
        Err(Error::Grammar { .. })
    ));
}

#[test]
fn missing_curl_word_is_a_grammar_error() {
    assert!(matches!(
        ParsedRequest::parse("wget example.com"),
        Err(Error::Grammar { .. })
    ));
}

#[test]
fn header_without_colon_is_a_grammar_error() {
    assert!(matches!(
        ParsedRequest::parse("curl -H nocolon example.com"),
        Err(Error::Grammar { .. })
    ));
}

#[test]
fn invalid_method_token_is_reported() {
    assert!(matches!(
        ParsedRequest::parse("curl -X 'G@T' example.com"),
        Err(Error::InvalidMethod { .. })
    ));
}

#[test]
fn invalid_header_name_is_reported() {
    assert!(matches!(
        ParsedRequest::parse("curl -H '@bad: v' example.com"),
        Err(Error::InvalidHeaderName { .. })
    ));
}

#[test]
fn invalid_header_value_is_reported() {
    assert!(matches!(
        ParsedRequest::parse("curl -H 'X: a\u{1}b' example.com"),
        Err(Error::InvalidHeaderValue { .. })
    ));
}

#[test]
fn render_failure_is_reported_before_parsing() {
    let ctx = TemplateContext::new();
    assert!(matches!(
        ParsedRequest::load("curl {{", &ctx),
        Err(Error::Render { .. })
    ));
}

#[test]
fn empty_input_is_a_grammar_error() {
    assert!(matches!(ParsedRequest::parse(""), Err(Error::Grammar { .. })));
}

#[test]
fn later_authorization_header_overwrites_basic_auth() {
    let parsed =
        ParsedRequest::parse("curl -u user:pass -H 'Authorization: Bearer X' https://h").unwrap();
    assert_eq!(parsed.headers.get("Authorization").unwrap().as_str(), "Bearer X");
}

#[test]
fn insecure_flag_is_idempotent() {
    let once = ParsedRequest::parse("curl -k example.com").unwrap();
    let twice = ParsedRequest::parse("curl -k -k example.com").unwrap();
    assert!(once.insecure);
    assert!(twice.insecure);
}

#[test]
fn no_url_leaves_the_field_empty() {
    let parsed = ParsedRequest::parse("curl").unwrap();
    assert_eq!(parsed.url, "");
    assert_eq!(parsed.method.as_str(), "GET");
}

#[test]
fn later_positional_url_overwrites_earlier() {
    let parsed = ParsedRequest::parse("curl https://a.test/x https://b.test/y").unwrap();
    assert_eq!(parsed.url, "https://b.test/y");
}

#[test]
fn default_request_is_an_empty_get() {
    let d = ParsedRequest::default();
    assert_eq!(d.method.as_str(), "GET");
    assert_eq!(d.url, "");
    assert!(d.body.is_empty());
    assert!(!d.insecure);
}

#[test]
fn method_token_keeps_quoted_and_bare_equivalent() {
    let quoted = ParsedRequest::parse("curl -X 'DELETE' example.com").unwrap();
    let bare = ParsedRequest::parse("curl -X DELETE example.com").unwrap();
    assert_eq!(quoted.method.as_str(), "DELETE");
    assert_eq!(bare.method.as_str(), "DELETE");
}
