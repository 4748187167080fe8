use sherlock::websearch::{is_url, replace_all, websearch};

#[test]
fn test_url_detector() {
    assert!(is_url("google.com"));
    assert!(!is_url("http:"));
    assert!(is_url("http://x"));
    assert!(is_url("8.8.8.8"));
    assert!(is_url("localhost"));

    assert!(!is_url("hello"));
    assert!(!is_url("rust regex"));
    assert!(!is_url("a b.com"));
}

#[test]
fn addresses_with_a_scheme() {
    assert!(is_url("https://example.org/path?q=1"));
    assert!(is_url("  file:///etc/hosts  "));
    assert!(!is_url("://x"));
    assert!(is_url("http://"));
    assert!(!is_url("a:/"));
    assert!(!is_url("a:/b"));
    assert!(is_url("a://"));
    assert!(is_url("a://b"));
    assert!(!is_url("mailto:someone@example.org"));
    assert!(!is_url("localhost:8080"));
    assert!(!is_url("ä:é"));
    assert!(is_url("ä://é"));
}

#[test]
fn addresses_without_a_scheme() {
    assert!(!is_url(""));
    assert!(!is_url("   "));
    assert!(is_url("LocalHost"));
    assert!(is_url("1.2.3.4"));
    assert!(is_url("1.2.3."));
    assert!(is_url("999.999.999.999"));
    assert!(is_url("1.2.3"));
    assert!(!is_url("1.2.3 4"));
    assert!(!is_url("example."));
    assert!(is_url(".example"));
    assert!(!is_url("1..2.3 x"));
    assert!(!is_url("1.2.3.4.5 x"));
    assert!(!is_url("1.2.3.a b"));
    // after three dots a fourth digit in a row ends the scan
    assert!(is_url("1.2.3.4567 x"));
    assert!(!is_url("1234.5 x"));
    assert!(is_url("größe.de"));
}

#[test]
fn replaces_every_occurrence() {
    assert_eq!(replace_all("a b  c", " ", "+"), "a+b++c");
    assert_eq!(replace_all("aaa", "aa", "b"), "ba");
    assert_eq!(replace_all("abc", "x", "y"), "abc");
    assert_eq!(replace_all("abc", "", "y"), "abc");
    assert_eq!(replace_all("", "a", "y"), "");
    assert_eq!(replace_all("{keyword}", "{keyword}", "größe"), "größe");
    assert_eq!(replace_all("~/a~", "~", "/home/u"), "/home/u/a/home/u");
}

#[test]
fn search_commands() {
    assert_eq!(
        websearch("google", "rust verus", "firefox"),
        "firefox \"https://www.google.com/search?q=rust+verus\""
    );
    assert_eq!(
        websearch("duckduckgo", "a", "/usr/lib/firefox/firefox %u"),
        "/usr/lib/firefox/firefox  \"https://duckduckgo.com/?q=a\""
    );
    // an address is opened as it is
    assert_eq!(websearch("google", "example.org", "firefox"), "firefox \"example.org\"");
    assert_eq!(websearch("plain", "some words", "firefox"), "firefox \"some+words\"");
    // an unknown engine is a template itself
    assert_eq!(
        websearch("https://search.example/?q={keyword}&x={keyword}", "a b", "brave"),
        "brave \"https://search.example/?q=a+b&x=a+b\""
    );
    assert_eq!(websearch("nothing", "a", "brave"), "brave \"nothing\"");
    for (engine, address) in [
        ("bing", "https://www.bing.com/search?q=q"),
        ("yahoo", "https://search.yahoo.com/search?p=q"),
        ("baidu", "https://www.baidu.com/s?wd=q"),
        ("yandex", "https://yandex.com/search/?text=q"),
        ("ask", "https://www.ask.com/web?q=q"),
        ("ecosia", "https://www.ecosia.org/search?q=q"),
        ("qwant", "https://www.qwant.com/?q=q"),
        ("startpage", "https://www.startpage.com/sp/search?q=q"),
    ] {
        assert_eq!(websearch(engine, "q", "b"), format!("b \"{}\"", address));
    }
}
