use butler::logger::{format_line, parse_rgb, service_color, Level, Logger};
use butler::process::output_line;
use butler::text::{concat4, decimal_text, join, sort_texts, text_at_most};

#[test]
fn parses_rgb_service_color() {
    assert_eq!(parse_rgb("#74ACDF"), Some((116, 172, 223)));
    assert_eq!(parse_rgb("74ACDF"), None);
    assert_eq!(parse_rgb("#bad"), None);
}

#[test]
fn colors_are_six_hexadecimal_digits() {
    assert_eq!(parse_rgb("#000000"), Some((0, 0, 0)));
    assert_eq!(parse_rgb("#ffFF0a"), Some((255, 255, 10)));
    assert_eq!(parse_rgb("#00000g"), None);
    assert_eq!(parse_rgb("#0000000"), None);
    assert_eq!(parse_rgb(""), None);
    assert_eq!(parse_rgb("#"), None);
    assert_eq!(parse_rgb("##74ACDF"), None);
}

#[test]
fn a_plus_sign_counts_as_in_number_parsing() {
    assert_eq!(parse_rgb("#+f+f+f"), Some((15, 15, 15)));
    assert_eq!(parse_rgb("#++++++"), None);
    assert_eq!(parse_rgb("#f+0000"), None);
    assert_eq!(parse_rgb("#-f0000"), None);
}

#[test]
fn lengths_are_counted_in_bytes() {
    assert_eq!(parse_rgb("#\u{e9}\u{e9}\u{e9}"), None);
    assert_eq!(parse_rgb("#\u{20ac}000"), None);
    assert_eq!(parse_rgb("#00\u{e9}00"), None);
}

#[test]
fn lines_are_colored_and_labelled() {
    let logger = Logger::new(Level::Debug);
    let time = "2024-05-01 12:30:00";
    assert_eq!(
        logger.log_at(Level::Error, "broken", time),
        Some("\u{1b}[0;31m2024-05-01 12:30:00 [ERROR]:\u{1b}[0m broken".to_owned())
    );
    assert_eq!(
        logger.log_at(Level::Warn, "odd", time),
        Some("\u{1b}[0;33m2024-05-01 12:30:00 [WARN]:\u{1b}[0m odd".to_owned())
    );
    assert_eq!(
        logger.log_at(Level::Info, "fine", time),
        Some("\u{1b}[0;36m2024-05-01 12:30:00 [INFO]:\u{1b}[0m fine".to_owned())
    );
    assert_eq!(
        logger.log_at(Level::Debug, "detail", time),
        Some("\u{1b}[0;35m2024-05-01 12:30:00 [DEBUG]:\u{1b}[0m detail".to_owned())
    );
    assert_eq!(format_line("<", "now", "who", "what"), "<now [who]:\u{1b}[0m what");
}

#[test]
fn services_are_logged_in_their_color() {
    let logger = Logger::new(Level::Info);
    let time = "2024-05-01 12:30:00";
    assert_eq!(
        logger.service_at("web", Some("#74ACDF"), "started", time),
        Some("\u{1b}[38;2;116;172;223m2024-05-01 12:30:00 [web]:\u{1b}[0m started".to_owned())
    );
    assert_eq!(
        logger.service_at("web", Some("blue"), "started", time),
        Some("\u{1b}[0;36m2024-05-01 12:30:00 [web]:\u{1b}[0m started".to_owned())
    );
    assert_eq!(
        logger.service_at("web", None, "started", time),
        Some("\u{1b}[0;36m2024-05-01 12:30:00 [web]:\u{1b}[0m started".to_owned())
    );
    assert_eq!(service_color(Some("#010203")), "\u{1b}[38;2;1;2;3m");
    assert_eq!(service_color(None), "\u{1b}[0;36m");
}

#[test]
fn less_important_messages_are_dropped() {
    let logger = Logger::new(Level::Warn);
    assert!(logger.error("e").is_some());
    assert!(logger.warn("w").is_some());
    assert!(logger.info("i").is_none());
    assert!(logger.debug("d").is_none());
    assert!(logger.service("s", None, "m").is_none());
    let quiet = Logger::new(Level::Error);
    assert!(quiet.error("e").is_some());
    assert!(quiet.warn("w").is_none());
    let loud = Logger::new(Level::Debug);
    assert!(loud.debug("d").is_some());
    assert!(loud.service("s", None, "m").is_some());
}

#[test]
fn levels_are_ordered_by_importance() {
    assert!(Level::Error < Level::Warn);
    assert!(Level::Warn < Level::Info);
    assert!(Level::Info < Level::Debug);
    assert!(!(Level::Info < Level::Info));
    assert_eq!(Level::Error.label(), "ERROR");
    assert_eq!(Level::Debug.color(), "\u{1b}[0;35m");
}

#[test]
fn lines_carry_the_local_time() {
    let logger = Logger::new(Level::Info);
    let line = logger.info("hello").unwrap();
    let start = "\u{1b}[0;36m".len();
    let time = &line[start..start + 19];
    let shape: String = time
        .chars()
        .map(|c| if c.is_ascii_digit() { '0' } else { c })
        .collect();
    assert_eq!(shape, "0000-00-00 00:00:00");
    assert_eq!(&line[start + 19..], " [INFO]:\u{1b}[0m hello");
    let other = logger.service("web", Some("#000001"), "hello").unwrap();
    assert!(other.starts_with("\u{1b}[38;2;0;0;1m20"));
    assert!(other.ends_with(" [web]:\u{1b}[0m hello"));
}

#[test]
fn output_lines_are_passed_on_until_one_cannot_be_read() {
    assert_eq!(output_line(Ok("hello".to_owned())), ("hello".to_owned(), false));
    assert_eq!(
        output_line(Err("stream did not contain valid UTF-8".to_owned())),
        (
            "failed to read service output: stream did not contain valid UTF-8".to_owned(),
            true
        )
    );
}

#[test]
fn texts_are_joined_and_sorted() {
    let mut parts = vec!["b".to_owned(), "ab".to_owned(), "a".to_owned(), "Z".to_owned()];
    sort_texts(&mut parts);
    assert_eq!(join(&parts, ", "), "Z, a, ab, b");
    assert_eq!(join(&Vec::new(), ", "), "");
    assert!(text_at_most("a", "a") && text_at_most("a", "ab") && !text_at_most("b", "ab"));
    assert!(text_at_most("z", "\u{e9}") && !text_at_most("\u{1f600}", "\u{ffff}"));
    assert_eq!(decimal_text(0), "0");
    assert_eq!(decimal_text(18446744073709551615), "18446744073709551615");
    assert_eq!(concat4("a", "", "b", "c"), "abc");
}
