use pdd::http::{decimal, is_success, request_head, status, target, Target};

fn at(host: &str, port: u16, path: &str) -> Option<Target> {
    Some(Target { host: host.to_string(), port, path: path.to_string() })
}

#[test]
fn decimal_writes_numbers() {
    assert_eq!(decimal(0), "0");
    assert_eq!(decimal(7), "7");
    assert_eq!(decimal(10), "10");
    assert_eq!(decimal(1024), "1024");
    assert_eq!(decimal(90807), "90807");
    assert_eq!(decimal(u64::MAX), "18446744073709551615");
}

#[test]
fn decimal_agrees_with_the_standard_library() {
    let mut n: u64 = 1;
    for _ in 0..64 {
        assert_eq!(decimal(n), n.to_string());
        assert_eq!(decimal(n - 1), (n - 1).to_string());
        n = n.wrapping_mul(2);
    }
}

#[test]
fn target_of_a_url() {
    assert_eq!(target("http://store:8080/blocks"), at("store", 8080, "/blocks"));
    assert_eq!(target("http://store/blocks?id=1#x"), at("store", 80, "/blocks?id=1#x"));
    assert_eq!(target("http://store"), at("store", 80, "/"));
    assert_eq!(target("http://store/"), at("store", 80, "/"));
    assert_eq!(target("http://store:81"), at("store", 81, "/"));
    assert_eq!(target("http://10.0.0.1:65535/a/b/"), at("10.0.0.1", 65535, "/a/b/"));
    assert_eq!(target("http://store/a:b"), at("store", 80, "/a:b"));
}

#[test]
fn urls_that_point_nowhere() {
    for url in [
        "",
        "store",
        "http:/store",
        "https://store/",
        "HTTP://store/",
        "http://",
        "http:///path",
        "http://:80/",
        "http://store:/",
        "http://store:http/",
        "http://store:65536/",
        "http://store:-1/",
        "http://[::1]:80/",
    ] {
        assert_eq!(target(url), None);
    }
}

#[test]
fn head_of_a_request() {
    let store = target("http://store:8080/blocks").unwrap();
    assert_eq!(
        request_head("POST", &store, 1024),
        "POST /blocks HTTP/1.1\r\nHost: store:8080\r\nContent-Length: 1024\r\nConnection: close\r\n\r\n"
    );
    let plain = target("http://example.org").unwrap();
    assert_eq!(
        request_head("PUT", &plain, 0),
        "PUT / HTTP/1.1\r\nHost: example.org:80\r\nContent-Length: 0\r\nConnection: close\r\n\r\n"
    );
}

#[test]
fn status_of_a_response() {
    assert_eq!(status("HTTP/1.1 200 OK"), Some(200));
    assert_eq!(status("HTTP/1.0 404 Not Found"), Some(404));
    assert_eq!(status("HTTP/1.1 204"), Some(204));
    assert_eq!(status("HTTP/1.1 204 "), Some(204));
    assert_eq!(status("HTTP/2 503 Service Unavailable"), Some(503));
    assert_eq!(status("HTTP/1.1 007 Odd"), Some(7));
}

#[test]
fn lines_that_give_no_status() {
    for line in [
        "",
        "HTTP/1.1",
        "HTTP/1.1 ",
        "HTTP/1.1 20",
        "HTTP/1.1 2000",
        "HTTP/1.1 200OK",
        "HTTP/1.1 +20 OK",
        "HTTP/1.1 2x0 OK",
        "HTTP/1.1  200 OK",
        "http/1.1 200 OK",
        "HTTP 200 OK",
        "200 OK",
        " HTTP/1.1 200 OK",
    ] {
        assert_eq!(status(line), None);
    }
}

#[test]
fn success_is_200_to_299() {
    assert!(!is_success(0));
    assert!(!is_success(199));
    assert!(is_success(200));
    assert!(is_success(204));
    assert!(is_success(299));
    assert!(!is_success(300));
    assert!(!is_success(404));
    assert!(!is_success(500));
    assert!(!is_success(u16::MAX));
}
