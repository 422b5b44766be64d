use saba_core::url::Url;

fn check(url: &str, host: &str, port: &str, path: &str, searchpart: &str) {
    let parsed = Url::new(url.to_string()).parse().expect("url should parse");
    assert_eq!(parsed.host(), host);
    assert_eq!(parsed.port(), port);
    assert_eq!(parsed.path(), path);
    assert_eq!(parsed.searchpart(), searchpart);
}

#[test]
fn test_url_host() {
    check("http://example.com", "example.com", "80", "", "");
}

#[test]
fn test_url_host_port() {
    check("http://example.com:8888", "example.com", "8888", "", "");
}

#[test]
fn test_url_host_port_path() {
    check("http://example.com:8888/index.html", "example.com", "8888", "index.html", "");
}

#[test]
fn test_url_host_path() {
    check("http://example.com/index.html", "example.com", "80", "index.html", "");
}

#[test]
fn test_url_host_port_path_searchquery() {
    check(
        "http://example.com:8888/index.html?a=123&b=456",
        "example.com",
        "8888",
        "index.html",
        "a=123&b=456",
    );
}

#[test]
fn test_no_scheme() {
    let url = "example.com".to_string();
    let expected = Err("Only HTTP scheme is supported.".to_string());
    assert_eq!(expected, Url::new(url).parse());
}

#[test]
fn test_unsupported_scheme() {
    let url = "https://example.com".to_string();
    let expected = Err("Only HTTP scheme is supported.".to_string());
    assert_eq!(expected, Url::new(url).parse());
}

#[test]
fn url_parse_updates_receiver() {
    let mut url = Url::new("http://h:1/p?q".to_string());
    let copy = url.parse().expect("url should parse");
    assert_eq!(url.host(), "h");
    assert_eq!(copy, url);
}

#[test]
fn url_round_trip_of_four_fields() {
    let text = "http://host.example:8080/dir/page.html?x=1&y=2";
    let parsed = Url::new(text.to_string()).parse().expect("url should parse");
    let rebuilt = format!(
        "http://{}:{}/{}?{}",
        parsed.host(),
        parsed.port(),
        parsed.path(),
        parsed.searchpart()
    );
    assert_eq!(rebuilt, text);
}

#[test]
fn url_path_without_query_and_empty_query() {
    check("http://a/b?", "a", "80", "b", "");
    check("http://a/", "a", "80", "", "");
}

#[test]
fn url_scheme_must_lead() {
    assert!(Url::new("ftp://x/http://y".to_string()).parse().is_err());
}

#[test]
fn url_query_without_path() {
    check("http://h?q=1", "h", "80", "", "q=1");
    check("http://h:81?q", "h", "81", "", "q");
}
