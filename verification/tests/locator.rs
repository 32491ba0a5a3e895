use std::path::Path;

use wheel_metadata::path::file_name;
use wheel_metadata::reader::{kind_of_scheme, Origin, ParseError, Service, UrlParts, WheelUrl, WheelUrlType};

fn parts(href: &str, scheme: &str, host: Option<&str>, path: &str) -> UrlParts {
    UrlParts {
        href: href.to_string(),
        scheme: scheme.to_string(),
        host: host.map(|h| h.to_string()),
        path: path.to_string(),
    }
}

#[test]
fn parses_https_url() {
    let url = WheelUrl::from_str("https://example.com/pkg/a.whl").unwrap();
    assert_eq!(url.url_type(), WheelUrlType::Httpx);
    assert_eq!(url.path(), "/pkg/a.whl");
    assert_eq!(url.file_name(), Some("a.whl".to_string()));
    assert_eq!(url.to_string(), "https://example.com/pkg/a.whl");
    assert_eq!(url.endpoint(), "https://example.com");
}

#[test]
fn parses_http_url() {
    let url = WheelUrl::from_str("http://example.org/x/y/pkg-1.0-py3-none-any.whl").unwrap();
    assert_eq!(url.url_type(), WheelUrlType::Httpx);
    assert_eq!(url.path(), "/x/y/pkg-1.0-py3-none-any.whl");
    assert_eq!(url.endpoint(), "http://example.org");
    assert_eq!(url.output_key(), "pkg-1.0-py3-none-any.whl");
}

#[test]
fn parses_file_url() {
    let url = WheelUrl::from_str("file:///tmp/a.whl").unwrap();
    assert_eq!(url.url_type(), WheelUrlType::File);
    assert_eq!(url.path(), "/tmp/a.whl");
    assert_eq!(url.to_string(), "/tmp/a.whl");
    assert_eq!(url.file_name(), Some("a.whl".to_string()));
    assert_eq!(url.endpoint(), "/");
}

#[test]
fn parses_bare_absolute_path() {
    let url = WheelUrl::from_str("/tmp/dir/b.whl").unwrap();
    assert_eq!(url.url_type(), WheelUrlType::File);
    assert_eq!(url.path(), "/tmp/dir/b.whl");
    assert_eq!(url.to_string(), "/tmp/dir/b.whl");
    assert_eq!(url.file_name(), Some("b.whl".to_string()));
}

#[test]
fn bare_path_is_kept_as_written() {
    let url = WheelUrl::from_str("/tmp/my pkg.whl").unwrap();
    assert_eq!(url.url_type(), WheelUrlType::File);
    assert_eq!(url.path(), "/tmp/my pkg.whl");
    assert_eq!(url.to_string(), "/tmp/my pkg.whl");
    assert_eq!(url.file_name(), Some("my pkg.whl".to_string()));
    assert_eq!(url.output_key(), "my pkg.whl");
    let made = parts("file:///tmp/my%20pkg.whl", "file", None, "/tmp/my%20pkg.whl");
    assert_eq!(Ok(url), WheelUrl::local("/tmp/my pkg.whl", made));
}

#[test]
fn bare_paths_with_marks_of_urls_are_kept_as_written() {
    for path in ["/tmp/100%.whl", "/tmp/a?b.whl", "/tmp/a#b.whl", "/dir with space/ünï.whl", "/a/%20/b"] {
        let url = WheelUrl::from_str(path).unwrap();
        assert_eq!(url.path(), path);
        assert_eq!(url.to_string(), path);
        assert_eq!(url.file_name(), file_name(path));
    }
}

#[test]
fn bare_path_is_not_tidied() {
    let url = WheelUrl::from_str("/tmp/./x//a.whl/").unwrap();
    assert_eq!(url.path(), "/tmp/./x//a.whl/");
    assert_eq!(url.to_string(), "/tmp/./x//a.whl/");
    assert_eq!(url.file_name(), Some("a.whl".to_string()));
}

#[test]
fn file_url_keeps_the_path_of_the_url() {
    let url = WheelUrl::from_str("file:///tmp/my%20pkg.whl").unwrap();
    assert_eq!(url.path(), "/tmp/my%20pkg.whl");
    assert_eq!(url.file_name(), Some("my%20pkg.whl".to_string()));
}

#[test]
fn local_wants_a_file_url() {
    let made = parts("http://h/tmp/a.whl", "http", Some("h"), "/tmp/a.whl");
    assert_eq!(WheelUrl::local("/tmp/a.whl", made), Err(ParseError::InvalidPath("/tmp/a.whl".to_string())));
    let made = parts("x", "", None, "/tmp/a.whl");
    assert_eq!(WheelUrl::local("/tmp/a.whl", made), Err(ParseError::InvalidPath("/tmp/a.whl".to_string())));
    let made = parts("file:///tmp/a.whl", "file", None, "/tmp/a.whl");
    let url = WheelUrl::local("/tmp/a b.whl", made).unwrap();
    assert_eq!(url.path(), "/tmp/a b.whl");
    assert_eq!(url.url_type(), WheelUrlType::File);
}

#[test]
fn kind_of_scheme_examples() {
    assert_eq!(kind_of_scheme(&"http".to_string()), Some(WheelUrlType::Httpx));
    assert_eq!(kind_of_scheme(&"https".to_string()), Some(WheelUrlType::Httpx));
    assert_eq!(kind_of_scheme(&"file".to_string()), Some(WheelUrlType::File));
    assert_eq!(kind_of_scheme(&"ftp".to_string()), None);
    assert_eq!(kind_of_scheme(&"File".to_string()), None);
    assert_eq!(kind_of_scheme(&String::new()), None);
}

#[test]
fn url_is_normalised_by_the_parser() {
    let url = WheelUrl::from_str("HTTPS://Example.COM/a/../b.whl?x=1#frag").unwrap();
    assert_eq!(url.url_type(), WheelUrlType::Httpx);
    assert_eq!(url.path(), "/b.whl");
    assert_eq!(url.endpoint(), "https://example.com");
    assert_eq!(url.to_string(), "https://example.com/b.whl?x=1#frag");
}

#[test]
fn relative_path_is_refused() {
    let error = WheelUrl::from_str("dir/a.whl").unwrap_err();
    assert_eq!(error, ParseError::InvalidPath("dir/a.whl".to_string()));
    assert_eq!(error.message(), "invalid path: dir/a.whl");
}

#[test]
fn empty_string_is_refused() {
    assert_eq!(WheelUrl::from_str("").unwrap_err(), ParseError::InvalidPath(String::new()));
}

#[test]
fn unsupported_scheme_is_refused() {
    let error = WheelUrl::from_str("ftp://example.com/a.whl").unwrap_err();
    assert_eq!(error, ParseError::UnsupportedScheme("ftp://example.com/a.whl".to_string()));
    assert_eq!(error.message(), "unknown scheme: ftp://example.com/a.whl");
}

#[test]
fn mailto_is_refused() {
    let error = WheelUrl::from_str("mailto:someone@example.com").unwrap_err();
    assert!(matches!(error, ParseError::UnsupportedScheme(_)));
}

#[test]
fn remote_url_with_address_as_host() {
    let url = WheelUrl::from_str("http://127.0.0.1:8080/a.whl").unwrap();
    assert_eq!(url.endpoint(), "http://127.0.0.1");
    assert_eq!(url.file_name(), Some("a.whl".to_string()));
}

#[test]
fn try_from_decides_by_scheme() {
    let https = WheelUrl::try_from(parts("https://h/p", "https", Some("h"), "/p")).unwrap();
    assert_eq!(https.url_type(), WheelUrlType::Httpx);
    let http = WheelUrl::try_from(parts("http://h/p", "http", Some("h"), "/p")).unwrap();
    assert_eq!(http.url_type(), WheelUrlType::Httpx);
    let file = WheelUrl::try_from(parts("file:///p", "file", None, "/p")).unwrap();
    assert_eq!(file.url_type(), WheelUrlType::File);
    let other = WheelUrl::try_from(parts("gopher://h/p", "gopher", Some("h"), "/p"));
    assert_eq!(other, Err(ParseError::UnsupportedScheme("gopher://h/p".to_string())));
}

#[test]
fn try_from_wants_a_host_for_remote_urls() {
    let error = WheelUrl::try_from(parts("http:/p", "http", None, "/p")).unwrap_err();
    assert_eq!(error, ParseError::MissingHost("http:/p".to_string()));
    assert_eq!(error.message(), "missing host: http:/p");
}

#[test]
fn try_from_is_exact_about_schemes() {
    assert!(WheelUrl::try_from(parts("x", "HTTP", Some("h"), "/p")).is_err());
    assert!(WheelUrl::try_from(parts("x", "httpx", Some("h"), "/p")).is_err());
    assert!(WheelUrl::try_from(parts("x", "", Some("h"), "/p")).is_err());
    assert!(WheelUrl::try_from(parts("x", "files", None, "/p")).is_err());
}

#[test]
fn display_name_is_the_last_segment_whatever_the_scheme() {
    for path in ["/a.whl", "/x/y/z.whl", "/d/", "/", "/a//b", "/deep/er/still/name.tar.gz"] {
        let file = WheelUrl::from_str(&format!("file://{path}")).unwrap();
        let http = WheelUrl::from_str(&format!("http://example.com{path}")).unwrap();
        let https = WheelUrl::from_str(&format!("https://example.com{path}")).unwrap();
        assert_eq!(file.path(), path);
        assert_eq!(file.file_name(), http.file_name());
        assert_eq!(file.file_name(), https.file_name());
        assert_eq!(file.file_name(), file_name(path));
    }
}

#[test]
fn file_name_examples() {
    assert_eq!(file_name("/a/b.whl"), Some("b.whl".to_string()));
    assert_eq!(file_name("b.whl"), Some("b.whl".to_string()));
    assert_eq!(file_name("/a/b/"), Some("b".to_string()));
    assert_eq!(file_name("/a/b//"), Some("b".to_string()));
    assert_eq!(file_name("/a/b/."), Some("b".to_string()));
    assert_eq!(file_name("/a/b/./"), Some("b".to_string()));
    assert_eq!(file_name("/a/.."), None);
    assert_eq!(file_name("/a/../"), None);
    assert_eq!(file_name(".."), None);
    assert_eq!(file_name("/"), None);
    assert_eq!(file_name("//"), None);
    assert_eq!(file_name(""), None);
    assert_eq!(file_name("."), None);
    assert_eq!(file_name("./."), None);
    assert_eq!(file_name("/a/..."), Some("...".to_string()));
    assert_eq!(file_name("/a/.b"), Some(".b".to_string()));
    assert_eq!(file_name("/a/b."), Some("b.".to_string()));
    assert_eq!(file_name("/a/..b"), Some("..b".to_string()));
    assert_eq!(file_name("/päckage/naïve.whl"), Some("naïve.whl".to_string()));
    assert_eq!(file_name("/a/日本語"), Some("日本語".to_string()));
}

#[test]
fn file_name_agrees_with_the_standard_library() {
    let pieces = ["", "/", ".", "..", "a", "b.whl", "...", ".x", "é", "//"];
    let mut paths: Vec<String> = Vec::new();
    for a in pieces {
        for b in pieces {
            for c in pieces {
                paths.push(format!("{a}{b}{c}"));
                paths.push(format!("{a}/{b}/{c}"));
                paths.push(format!("/{a}/{b}{c}"));
            }
        }
    }
    for path in paths {
        let expected = Path::new(&path).file_name().and_then(|name| name.to_str()).map(|name| name.to_string());
        assert_eq!(file_name(&path), expected, "path {path:?}");
    }
}

#[test]
fn output_key_falls_back_to_the_locator() {
    let remote = WheelUrl::from_str("https://example.com/").unwrap();
    assert_eq!(remote.file_name(), None);
    assert_eq!(remote.output_key(), "https://example.com/");
    let local = WheelUrl::from_str("/").unwrap();
    assert_eq!(local.file_name(), None);
    assert_eq!(local.output_key(), "/");
    let parent = WheelUrl::from_str("/tmp/..").unwrap();
    assert_eq!(parent.output_key(), parent.to_string());
    let named = WheelUrl::from_str("https://example.com/pkg.whl").unwrap();
    assert_eq!(named.output_key(), "pkg.whl");
}

#[test]
fn origin_is_kind_and_endpoint() {
    let a = WheelUrl::from_str("https://example.com/a.whl").unwrap();
    let b = WheelUrl::from_str("https://example.com/deep/b.whl").unwrap();
    let c = WheelUrl::from_str("http://example.com/a.whl").unwrap();
    let d = WheelUrl::from_str("https://other.example/a.whl").unwrap();
    let e = WheelUrl::from_str("/tmp/a.whl").unwrap();
    let f = WheelUrl::from_str("file:///var/b.whl").unwrap();
    assert_eq!(a.origin(), Origin { kind: WheelUrlType::Httpx, endpoint: "https://example.com".to_string() });
    assert!(a.origin().same_as(&b.origin()));
    assert!(!a.origin().same_as(&c.origin()));
    assert!(!a.origin().same_as(&d.origin()));
    assert!(!a.origin().same_as(&e.origin()));
    assert_eq!(e.origin(), Origin { kind: WheelUrlType::File, endpoint: "/".to_string() });
    assert!(e.origin().same_as(&f.origin()));
}

#[test]
fn same_as_tells_kinds_apart() {
    let remote = Origin { kind: WheelUrlType::Httpx, endpoint: "/".to_string() };
    let local = Origin { kind: WheelUrlType::File, endpoint: "/".to_string() };
    assert!(!remote.same_as(&local));
    assert!(local.same_as(&local.clone()));
}

#[test]
fn service_is_built_from_the_endpoint() {
    let remote = WheelUrl::from_str("https://example.com:8443/a.whl").unwrap();
    assert_eq!(remote.service(), Service::Httpx("https://example.com".to_string()));
    let local = WheelUrl::from_str("/tmp/a.whl").unwrap();
    assert_eq!(local.service(), Service::File("/".to_string()));
}

#[test]
fn clone_keeps_the_locator() {
    let url = WheelUrl::from_str("https://example.com/pkg/a.whl").unwrap();
    let copy = url.clone();
    assert_eq!(url, copy);
    assert_eq!(copy.to_string(), "https://example.com/pkg/a.whl");
}
