use hn_scored::api::firebase::{after_failed_attempt, clamp_delay, retry_delay, RetryStep};
use hn_scored::config::{normalize_base_url, parse_base_url};
use hn_scored::error::AppError;
use hn_scored::text::{decimal_string, parse_unsigned_text, signed_decimal_string};
use hn_scored::time::Timestamp;
use hn_scored::util::{decode_title, description_domain, hn_item_url, xml_escape};

#[test]
fn xml_escape_replaces_markup_characters() {
    assert_eq!(xml_escape("a<b>&\"c'"), "a&lt;b&gt;&amp;&quot;c'");
    assert_eq!(xml_escape("plain"), "plain");
    assert_eq!(xml_escape(""), "");
}

#[test]
fn titles_are_html_decoded() {
    assert_eq!(decode_title("Tom &amp; Jerry &lt;3"), "Tom & Jerry <3");
    assert_eq!(decode_title("It&#x27;s"), "It's");
    assert_eq!(decode_title("no entities"), "no entities");
}

#[test]
fn description_domain_strips_www_and_default_ports() {
    assert_eq!(description_domain("", 42), "news.ycombinator.com/item?id=42");
    assert_eq!(description_domain("https://www.example.com/", 1), "example.com");
    assert_eq!(description_domain("https://example.com:443/a/b", 1), "example.com/a/b");
    assert_eq!(description_domain("http://example.com:8080/x", 1), "example.com:8080/x");
    assert_eq!(description_domain("not a url", 1), "not a url");
}

#[test]
fn item_urls_point_at_hn() {
    assert_eq!(hn_item_url(8863), "https://news.ycombinator.com/item?id=8863");
}

#[test]
fn base_url_loses_one_trailing_slash() {
    assert_eq!(normalize_base_url("https://hn.ysm.dev/").unwrap(), "https://hn.ysm.dev");
    assert_eq!(normalize_base_url("http://localhost:8080").unwrap(), "http://localhost:8080");
    assert_eq!(parse_base_url("https://hn.ysm.dev").unwrap(), "https://hn.ysm.dev");
}

#[test]
fn base_url_must_be_http_with_a_host() {
    match normalize_base_url("ftp://example.com") {
        Err(AppError::InvalidBaseUrl(input)) => assert_eq!(input, "ftp://example.com"),
        other => panic!("unexpected {other:?}"),
    }
    assert_eq!(parse_base_url("nope").unwrap_err(), "invalid base URL: nope");
}

#[test]
fn timestamps_read_and_write_rfc3339_and_rfc2822() {
    let t = Timestamp::parse("2025-04-14T12:34:56Z").unwrap();
    assert_eq!(t.unix_seconds(), 1_744_634_096);
    assert_eq!(t.iso8601(), "2025-04-14T12:34:56Z");
    assert_eq!(t.rfc2822(), "Mon, 14 Apr 2025 12:34:56 +0000");
    assert_eq!(Timestamp::parse("2025-04-14T14:34:56.9+02:00").unwrap(), t);
    assert!(Timestamp::parse("yesterday").is_none());
    assert_eq!(Timestamp::epoch().iso8601(), "1970-01-01T00:00:00Z");
    assert!(Timestamp::from_unix_seconds(253_402_300_800).is_none());
}

#[test]
fn retry_delays_stay_in_their_windows() {
    assert_eq!(retry_delay(0), 0);
    assert_eq!(retry_delay(1), 0);
    for _ in 0..50 {
        let second = retry_delay(2);
        assert!((250..=750).contains(&second));
        let third = retry_delay(3);
        assert!((500..=1500).contains(&third));
    }
}

#[test]
fn decimal_texts_round_trip() {
    assert_eq!(decimal_string(0), "0");
    assert_eq!(decimal_string(18_446_744_073_709_551_615), "18446744073709551615");
    assert_eq!(signed_decimal_string(-42), "-42");
    assert_eq!(parse_unsigned_text("18446744073709551615", u64::MAX), Some(u64::MAX));
    assert_eq!(parse_unsigned_text("18446744073709551616", u64::MAX), None);
    assert_eq!(parse_unsigned_text("+7", 100), Some(7));
    assert_eq!(parse_unsigned_text("101", 100), None);
    assert_eq!(parse_unsigned_text("", 100), None);
    assert_eq!(parse_unsigned_text("1a", 100), None);
}

#[test]
fn io_errors_name_the_path() {
    let error = AppError::io(
        std::path::PathBuf::from("/tmp/x"),
        std::io::Error::new(std::io::ErrorKind::Other, "boom"),
    );
    assert_eq!(error.message(), "I/O error for /tmp/x: boom");
    assert_eq!(AppError::Http("x".to_string()).message(), "HTTP error: x");
    assert_eq!(AppError::Serialization("y".to_string()).message(), "serialization error: y");
}

#[test]
fn retries_wait_twice_then_give_up() {
    for _ in 0..20 {
        match after_failed_attempt(1) {
            RetryStep::Wait { millis, next_attempt } => {
                assert_eq!(next_attempt, 2);
                assert!((250..=750).contains(&millis));
            }
            RetryStep::GiveUp => panic!("gave up after one attempt"),
        }
        match after_failed_attempt(2) {
            RetryStep::Wait { millis, next_attempt } => {
                assert_eq!(next_attempt, 3);
                assert!((500..=1500).contains(&millis));
            }
            RetryStep::GiveUp => panic!("gave up after two attempts"),
        }
    }
    assert_eq!(after_failed_attempt(3), RetryStep::GiveUp);
    assert_eq!(after_failed_attempt(7), RetryStep::GiveUp);
}

#[test]
fn drawn_delays_are_capped_at_two_seconds() {
    assert_eq!(clamp_delay(0), 0);
    assert_eq!(clamp_delay(1999), 1999);
    assert_eq!(clamp_delay(2000), 2000);
    assert_eq!(clamp_delay(5000), 2000);
}
