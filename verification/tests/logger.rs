use ciroach::logger::{LogArchive, LogMessage, Logger};

fn message(step: &str, line: &str, is_error: bool) -> LogMessage {
    LogMessage { step_name: step.to_string(), line: line.to_string(), is_error }
}

#[test]
fn a_line_is_stored_with_its_stream_and_its_step() {
    assert_eq!(message("hello", "hi", false).terminal_format(), "[OUT] [hello] hi");
    assert_eq!(message("hello", "oops", true).terminal_format(), "[ERR] [hello] oops");
    assert_eq!(message("test-18", "", false).terminal_format(), "[OUT] [test-18] ");
}

#[test]
fn trailing_whitespace_of_a_line_is_dropped() {
    assert_eq!(message("s", "  hi \r\n", false).terminal_format(), "[OUT] [s]   hi");
    assert_eq!(message("s", "a\tb\t \u{a0}", true).terminal_format(), "[ERR] [s] a\tb");
    assert_eq!(message("s", " \n ", false).terminal_format(), "[OUT] [s] ");
}

#[test]
fn an_error_line_is_made_for_a_step() {
    let m = LogMessage::error("flaky", "boom".to_string());
    assert_eq!(m.step_name, "flaky");
    assert_eq!(m.line, "boom");
    assert!(m.is_error);
}

#[test]
fn lines_of_a_step_keep_their_order() {
    let mut logger = Logger::new();
    logger.record(&message("a", "1", false));
    logger.record(&message("b", "x", false));
    logger.record(&message("a", "2", true));
    logger.record(&message("a", "3", false));
    logger.record(&message("b", "y", true));
    let archive = logger.finish();
    assert_eq!(
        archive.get("a").unwrap(),
        &vec!["[OUT] [a] 1".to_string(), "[ERR] [a] 2".to_string(), "[OUT] [a] 3".to_string()]
    );
    assert_eq!(archive.get("b").unwrap(), &vec!["[OUT] [b] x".to_string(), "[ERR] [b] y".to_string()]);
    assert_eq!(archive.get("c"), None);
    assert_eq!(archive.len(), 2);
}

#[test]
fn an_empty_store_gives_an_empty_archive() {
    let archive = Logger::new().finish();
    assert_eq!(archive.len(), 0);
    assert!(archive.entries().is_empty());
    assert_eq!(archive.get("a"), None);
}

#[test]
fn the_archive_lists_the_steps_in_the_order_of_their_first_line() {
    let mut archive = LogArchive::new();
    archive.append("late", "l1".to_string());
    archive.append("early", "e1".to_string());
    archive.append("late", "l2".to_string());
    let entries = archive.entries();
    assert_eq!(entries.len(), 2);
    assert_eq!(entries[0].step_name, "late");
    assert_eq!(entries[0].lines, vec!["l1".to_string(), "l2".to_string()]);
    assert_eq!(entries[1].step_name, "early");
    assert_eq!(entries[1].lines, vec!["e1".to_string()]);
}

#[test]
fn steps_are_told_apart_by_their_whole_name() {
    let mut archive = LogArchive::new();
    archive.append("test", "a".to_string());
    archive.append("test-1", "b".to_string());
    archive.append("Test", "c".to_string());
    assert_eq!(archive.len(), 3);
    assert_eq!(archive.get("test").unwrap().len(), 1);
    assert_eq!(archive.get("test-1").unwrap().len(), 1);
    assert_eq!(archive.get("Test").unwrap().len(), 1);
}
