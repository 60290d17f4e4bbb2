use lib::links::{classify_link_token, find_link_in_line, DetectedLink};

fn chars(s: &str) -> Vec<char> {
    s.chars().collect()
}

fn classify(s: &str) -> Option<String> {
    classify_link_token(s)
}

#[test]
fn url_in_text_is_found_without_trailing_punctuation() {
    let line = chars("see https://example.com/path, ok");
    let link = find_link_in_line(&line, 6).unwrap();
    assert_eq!(
        link,
        DetectedLink { start_col: 4, end_col: 27, target: "https://example.com/path".to_string() }
    );
    assert_eq!(find_link_in_line(&line, 27), Some(link.clone()));
    assert_eq!(find_link_in_line(&line, 4), Some(link));
}

#[test]
fn brackets_around_a_host_are_cut() {
    let line = chars("(www.rust-lang.org)");
    let link = find_link_in_line(&line, 5).unwrap();
    assert_eq!(link.start_col, 1);
    assert_eq!(link.end_col, 17);
    assert_eq!(link.target, "https://www.rust-lang.org");
}

#[test]
fn trailing_colon_is_kept_in_span_but_not_in_target() {
    let line = chars("go http://a.com: now");
    let link = find_link_in_line(&line, 5).unwrap();
    assert_eq!(link.start_col, 3);
    assert_eq!(link.end_col, 15);
    assert_eq!(link.target, "http://a.com");
}

#[test]
fn no_link_on_whitespace_past_the_end_or_on_plain_words() {
    let line = chars("hello world https://x.io");
    assert_eq!(find_link_in_line(&line, 5), None);
    assert_eq!(find_link_in_line(&line, 100), None);
    assert_eq!(find_link_in_line(&line, 2), None);
    assert_eq!(find_link_in_line(&chars(""), 0), None);
    assert_eq!(find_link_in_line(&chars(&"(".repeat(3)), 1), None);
    assert_eq!(find_link_in_line(&chars("\u{3000}x.io"), 0), None);
    assert!(find_link_in_line(&chars("\u{3000}x.io"), 2).is_some());
}

#[test]
fn schemes_pass_through_unchanged() {
    assert_eq!(classify("https://example.com"), Some("https://example.com".to_string()));
    assert_eq!(classify("HTTP://X.COM"), Some("HTTP://X.COM".to_string()));
    assert_eq!(classify("file:///tmp/a"), Some("file:///tmp/a".to_string()));
    assert_eq!(classify("WWW.Example.com"), Some("https://WWW.Example.com".to_string()));
    assert_eq!(classify(""), None);
}

#[test]
fn file_paths_open_over_file_scheme() {
    assert_eq!(classify("/usr/bin/env"), Some("file:///usr/bin/env".to_string()));
    assert_eq!(classify("~/notes.txt"), Some("file://~/notes.txt".to_string()));
    assert_eq!(
        classify("./src/main.rs:42:10"),
        Some("file://./src/main.rs:42:10".to_string())
    );
    assert_eq!(classify("../a"), Some("file://../a".to_string()));
    assert_eq!(classify("C:\\Users\\me"), Some("file://C:\\Users\\me".to_string()));
    assert_eq!(classify("d:/x"), Some("file://d:/x".to_string()));
    assert_eq!(classify("src/main.rs:42:10"), None);
    assert_eq!(classify("/"), Some("file:///".to_string()));
}

#[test]
fn file_path_extension_rules() {
    assert_eq!(classify("~notes.txt"), None);
    assert_eq!(classify("/etc"), Some("file:///etc".to_string()));
    assert_eq!(classify("~/a.toolongextension"), Some("file://~/a.toolongextension".to_string()));
}

#[test]
fn hosts_and_addresses_open_over_http() {
    assert_eq!(classify("example.com"), Some("http://example.com".to_string()));
    assert_eq!(classify("localhost:3000"), Some("http://localhost:3000".to_string()));
    assert_eq!(classify("LocalHost:abc"), Some("http://LocalHost:abc".to_string()));
    assert_eq!(
        classify("192.168.0.1:8080/x"),
        Some("http://192.168.0.1:8080/x".to_string())
    );
    assert_eq!(classify("256.1.1.1"), Some("http://256.1.1.1".to_string()));
    assert_eq!(classify("1.2.3"), Some("http://1.2.3".to_string()));
    assert_eq!(classify("+1.2.3.4"), Some("http://+1.2.3.4".to_string()));
}

#[test]
fn malformed_hosts_are_not_links() {
    assert_eq!(classify("hello"), None);
    assert_eq!(classify("foo.-bar.com"), None);
    assert_eq!(classify("foo..com"), None);
    assert_eq!(classify("example.com:99999"), None);
    assert_eq!(classify("example.com:"), None);
    assert_eq!(classify("exa_mple.com"), None);
    assert_eq!(classify("1.2.3.4:65536"), None);
    assert_eq!(classify("1.2.3.4:65535"), Some("http://1.2.3.4:65535".to_string()));
}

#[test]
fn a_target_classifies_to_itself() {
    for token in ["www.a.org", "a.org", "/x/y", "1.2.3.4", "HTTPS://q", "localhost"] {
        let target = classify(token).unwrap();
        assert_eq!(classify(&target), Some(target.clone()));
        assert!(
            target.to_ascii_lowercase().starts_with("http://")
                || target.to_ascii_lowercase().starts_with("https://")
                || target.to_ascii_lowercase().starts_with("file://")
        );
    }
}
