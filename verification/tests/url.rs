use griffin::url::{split_url, HTTPS_PORT};

fn parts(text: &str) -> (Option<String>, String, Option<u16>, String, Option<u16>) {
    let url = split_url(text);
    let effective = url.effective_port();
    (url.scheme, url.host, url.port, url.path, effective)
}

fn expect(
    text: &str,
    scheme: Option<&str>,
    host: &str,
    port: Option<u16>,
    path: &str,
    effective: Option<u16>,
) {
    assert_eq!(
        parts(text),
        (
            scheme.map(|s| s.to_string()),
            host.to_string(),
            port,
            path.to_string(),
            effective
        ),
        "{:?}",
        text
    );
}

#[test]
fn a_full_url_is_split_into_its_parts() {
    expect(
        "http://foo.example.com:8080/status?x=1",
        Some("http"),
        "foo.example.com",
        Some(8080),
        "/status?x=1",
        Some(8080),
    );
    expect("https://foo.bar", Some("https"), "foo.bar", None, "/", Some(443));
    expect("https://foo.bar/", Some("https"), "foo.bar", None, "/", Some(443));
    expect("HTTPS://A.B", Some("HTTPS"), "A.B", None, "/", Some(443));
    expect("hTtPs://a.b:444/x", Some("hTtPs"), "a.b", Some(444), "/x", Some(444));
    expect("ftp://files", Some("ftp"), "files", None, "/", None);
    expect("http://h", Some("http"), "h", None, "/", None);
    assert_eq!(HTTPS_PORT, 443);
}

#[test]
fn scheme_port_and_path_may_be_left_out() {
    expect("foo.example.com", None, "foo.example.com", None, "/", None);
    expect("foo.example.com:99/a/b", None, "foo.example.com", Some(99), "/a/b", Some(99));
    expect("foo.example.com/a:b", None, "foo.example.com", None, "/a:b", None);
    expect("10.0.0.1:65535", None, "10.0.0.1", Some(65535), "/", Some(65535));
    expect("a:0080", None, "a", Some(80), "/", Some(80));
    expect("a:0", None, "a", Some(0), "/", Some(0));
}

#[test]
fn what_is_no_port_number_stays_with_the_host() {
    expect("10.0.0.1:65536", None, "10.0.0.1:65536", None, "/", None);
    expect("a:99999999999999999999", None, "a:99999999999999999999", None, "/", None);
    expect("host:", None, "host:", None, "/", None);
    expect("host:8o", None, "host:8o", None, "/", None);
    expect("host:-1", None, "host:-1", None, "/", None);
    expect("[::1]", None, "[::1]", None, "/", None);
    expect("[::1]:8080/x", None, "[::1]", Some(8080), "/x", Some(8080));
    expect("http://[fe80::1]:81", Some("http"), "[fe80::1]", Some(81), "/", Some(81));
    expect("user:secret@host:21", None, "user:secret@host", Some(21), "/", Some(21));
}

#[test]
fn a_scheme_needs_its_mark_before_any_slash() {
    expect("host/p?u=http://x", None, "host", None, "/p?u=http://x", None);
    expect("http:/x", None, "http:", None, "/x", None);
    expect("http:x", None, "http:x", None, "/", None);
    expect("//host/x", None, "", None, "//host/x", None);
    expect("://host", Some(""), "host", None, "/", None);
    expect("a://b://c", Some("a"), "b:", None, "//c", None);
}

#[test]
fn odd_urls_are_split_all_the_same() {
    expect("", None, "", None, "/", None);
    expect("/", None, "", None, "/", None);
    expect(":", None, ":", None, "/", None);
    expect("http://", Some("http"), "", None, "/", None);
    expect("http://:80", Some("http"), "", Some(80), "/", Some(80));
    expect("https:///x", Some("https"), "", None, "/x", Some(443));
    expect(
        "http://b\u{fc}cher.example/\u{e4}?q=\u{1f600}",
        Some("http"),
        "b\u{fc}cher.example",
        None,
        "/\u{e4}?q=\u{1f600}",
        None,
    );
    expect("\u{1f600}:7", None, "\u{1f600}", Some(7), "/", Some(7));
}
