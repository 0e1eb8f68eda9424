use app_blocker::block_page::{block_page_response, escape, parse_host, render_page};

#[test]
fn parses_host_header_case_insensitively() {
    let req = "GET / HTTP/1.1\r\nHost: ads.example.com\r\nAccept: */*\r\n\r\n";
    assert_eq!(parse_host(req), Some("ads.example.com".to_string()));
    let lower = "get / http/1.1\r\nhost: lower.example.com\r\n\r\n";
    assert_eq!(parse_host(lower), Some("lower.example.com".to_string()));
    assert_eq!(parse_host("GET / HTTP/1.1\r\n\r\n"), None);
}

#[test]
fn escapes_host_in_page() {
    let page = render_page("<script>x</script>");
    assert!(!page.contains("<script>x"));
    assert!(page.contains("&lt;script&gt;"));
}

// ---- further cases ----

#[test]
fn escape_replaces_all_five_specials() {
    assert_eq!(escape("a&b<c>d\"e'f"), "a&amp;b&lt;c&gt;d&quot;e&#39;f");
    assert_eq!(escape("plain.example.com"), "plain.example.com");
}

#[test]
fn blank_host_header_is_absent() {
    assert_eq!(parse_host("GET / HTTP/1.1\r\nHost:    \r\n\r\n"), None);
    assert_eq!(parse_host("GET / HTTP/1.1\r\nHost:x.com  \r\n"), Some("x.com".to_string()));
}

#[test]
fn page_names_the_host_twice() {
    let page = render_page("ads.example.com");
    assert_eq!(page.matches("ads.example.com").count(), 2);
    assert!(page.starts_with("<!doctype html>"));
}

#[test]
fn response_carries_exact_content_length() {
    let resp = block_page_response(b"GET / HTTP/1.1\r\nHost: ads.example.com\r\n\r\n");
    let body = render_page("ads.example.com");
    let expected = format!(
        "HTTP/1.1 200 OK\r\nContent-Type: text/html; charset=utf-8\r\nContent-Length: {}\r\nCache-Control: no-store\r\nConnection: close\r\n\r\n{}",
        body.len(),
        body
    );
    assert_eq!(resp, expected);
}

#[test]
fn response_without_host_shows_this_site() {
    let resp = block_page_response(b"GET / HTTP/1.1\r\n\r\n");
    assert!(resp.ends_with(&render_page("this site")));
}

#[test]
fn response_decodes_invalid_utf8_leniently() {
    let resp = block_page_response(b"GET / HTTP/1.1\r\nHost: caf\xff.com\r\n\r\n");
    let body = render_page("caf\u{FFFD}.com");
    assert!(resp.ends_with(&body));
    assert!(resp.contains(&format!("Content-Length: {}\r\n", body.len())));
}

#[test]
fn host_header_name_in_any_case() {
    let req = "GET / HTTP/1.1\r\nHOST: x.example.com\r\n\r\n";
    assert_eq!(parse_host(req), Some("x.example.com".to_string()));
    assert_eq!(parse_host("GET / HTTP/1.1\r\nhOsT:y.example.com\r\n"), Some("y.example.com".to_string()));
    assert_eq!(parse_host("GET / HTTP/1.1\r\nHosts: z.com\r\n"), None);
}
