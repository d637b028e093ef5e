use zzh::error::Error;
use zzh::history::{
    append_to_history, extract_history, history_line, latest_attempts, read_log, HistoryEntry,
};
use zzh::stamp::{has_text, EARLIEST, LATEST};
use zzh::text::blank;

fn entry(alias: &str, timestamp: i64) -> HistoryEntry {
    HistoryEntry { alias: alias.to_string(), timestamp }
}

#[test]
fn empty_log_has_no_entries() {
    assert_eq!(extract_history(""), Ok(vec![]));
    assert_eq!(read_log(""), Ok(vec![]));
}

#[test]
fn line_that_is_no_timestamp_is_corrupt() {
    assert_eq!(
        extract_history("not-a-timestamp host1"),
        Err(Error::HistoryCorrupt { line: 0 })
    );
    assert_eq!(
        extract_history("not-a-timestamp host1\n"),
        Err(Error::HistoryCorrupt { line: 0 })
    );
}

#[test]
fn timestamps_are_read_as_seconds_since_the_epoch() {
    assert_eq!(
        read_log("2024-01-02T03:04:05Z web\n"),
        Ok(vec![entry("web", 1_704_164_645)])
    );
    assert_eq!(read_log("1970-01-01T00:00:00Z a\n"), Ok(vec![entry("a", 0)]));
    assert_eq!(read_log("1969-12-31T23:59:59Z a\n"), Ok(vec![entry("a", -1)]));
}

#[test]
fn offsets_and_fractions_are_read_to_the_second_in_utc() {
    assert_eq!(
        read_log("2024-01-02T04:04:05+01:00 web\n"),
        Ok(vec![entry("web", 1_704_164_645)])
    );
    assert_eq!(
        read_log("2024-01-02T03:04:05.750Z web\n"),
        Ok(vec![entry("web", 1_704_164_645)])
    );
}

#[test]
fn log_is_read_in_the_order_of_its_lines() {
    let log = "2024-01-02T03:04:05Z b\n2024-01-02T03:04:06Z a\n2024-01-02T03:04:04Z b\n";
    assert_eq!(
        read_log(log),
        Ok(vec![
            entry("b", 1_704_164_645),
            entry("a", 1_704_164_646),
            entry("b", 1_704_164_644),
        ])
    );
}

#[test]
fn empty_lines_are_passed_over() {
    let log = "\n2024-01-02T03:04:05Z b\n\n\n2024-01-02T03:04:06Z a";
    assert_eq!(
        read_log(log),
        Ok(vec![entry("b", 1_704_164_645), entry("a", 1_704_164_646)])
    );
}

#[test]
fn fields_may_be_separated_by_any_blanks() {
    assert_eq!(
        read_log("  2024-01-02T03:04:05Z \t web \r\n"),
        Ok(vec![entry("web", 1_704_164_645)])
    );
}

#[test]
fn line_with_one_field_is_corrupt() {
    assert_eq!(
        extract_history("2024-01-02T03:04:05Z a\n2024-01-02T03:04:05Z\n"),
        Err(Error::HistoryCorrupt { line: 1 })
    );
}

#[test]
fn line_with_three_fields_is_corrupt() {
    assert_eq!(
        extract_history("2024-01-02T03:04:05Z a b\n"),
        Err(Error::HistoryCorrupt { line: 0 })
    );
}

#[test]
fn line_of_blanks_is_corrupt() {
    assert_eq!(
        extract_history("2024-01-02T03:04:05Z a\n\n   \n"),
        Err(Error::HistoryCorrupt { line: 2 })
    );
}

#[test]
fn first_corrupt_line_is_reported() {
    let log = "2024-01-02T03:04:05Z a\nbad line\nworse\n";
    assert_eq!(extract_history(log), Err(Error::HistoryCorrupt { line: 1 }));
    assert_eq!(read_log(log), Err(Error::HistoryCorrupt { line: 1 }));
}

#[test]
fn date_that_does_not_exist_is_corrupt() {
    assert_eq!(
        extract_history("2024-02-30T03:04:05Z a\n"),
        Err(Error::HistoryCorrupt { line: 0 })
    );
}

#[test]
fn each_alias_is_kept_once_with_its_latest_attempt() {
    let log = "2024-01-02T03:04:05Z a\n\
               2024-01-05T00:00:00Z b\n\
               2024-01-03T00:00:00Z a\n\
               2024-01-01T00:00:00Z b\n\
               2024-01-02T00:00:00Z a\n";
    assert_eq!(
        extract_history(log),
        Ok(vec![entry("b", 1_704_412_800), entry("a", 1_704_240_000)])
    );
}

#[test]
fn history_is_ranked_by_descending_time() {
    let log = "2024-01-01T00:00:00Z old\n\
               2024-01-03T00:00:00Z new\n\
               2024-01-02T00:00:00Z mid\n";
    assert_eq!(
        extract_history(log),
        Ok(vec![
            entry("new", 1_704_240_000),
            entry("mid", 1_704_153_600),
            entry("old", 1_704_067_200),
        ])
    );
}

#[test]
fn equal_times_are_ranked_by_alias() {
    let log = "2024-01-01T00:00:00Z pear\n\
               2024-01-01T00:00:00Z apple\n\
               2024-01-01T00:00:00Z pea\n\
               2024-01-01T00:00:00Z Zed\n";
    assert_eq!(
        extract_history(log),
        Ok(vec![
            entry("Zed", 1_704_067_200),
            entry("apple", 1_704_067_200),
            entry("pea", 1_704_067_200),
            entry("pear", 1_704_067_200),
        ])
    );
}

#[test]
fn latest_attempts_of_entries() {
    let log = vec![entry("a", 5), entry("b", 7), entry("a", 9), entry("c", 7), entry("a", 1)];
    assert_eq!(
        latest_attempts(&log),
        vec![entry("a", 9), entry("b", 7), entry("c", 7)]
    );
    assert_eq!(latest_attempts(&vec![]), vec![]);
}

#[test]
fn history_line_has_fixed_width_timestamp() {
    assert_eq!(history_line(0, "a"), Some("1970-01-01T00:00:00Z a\n".to_string()));
    assert_eq!(
        history_line(1_704_164_645, "web"),
        Some("2024-01-02T03:04:05Z web\n".to_string())
    );
    assert_eq!(
        history_line(EARLIEST, "x"),
        Some("0000-01-01T00:00:00Z x\n".to_string())
    );
    assert_eq!(
        history_line(LATEST, "x"),
        Some("9999-12-31T23:59:59Z x\n".to_string())
    );
}

#[test]
fn no_history_line_outside_four_digit_years() {
    assert_eq!(history_line(EARLIEST - 1, "x"), None);
    assert_eq!(history_line(LATEST + 1, "x"), None);
    assert_eq!(history_line(i64::MIN, "x"), None);
    assert_eq!(history_line(i64::MAX, "x"), None);
    assert!(has_text(EARLIEST) && has_text(LATEST) && has_text(0));
    assert!(!has_text(EARLIEST - 1) && !has_text(LATEST + 1));
}

#[test]
fn written_line_is_read_back() {
    for timestamp in [EARLIEST, -1, 0, 1, 951_782_400, 1_704_164_645, LATEST] {
        let line = history_line(timestamp, "host-1").unwrap();
        assert_eq!(read_log(&line), Ok(vec![entry("host-1", timestamp)]));
    }
}

#[test]
fn appended_lines_add_to_what_the_log_records() {
    let mut log = String::new();
    let mut expected = Vec::new();
    for (timestamp, alias) in [(30, "a"), (10, "b"), (20, "a"), (40, "c")] {
        let before = log.clone();
        assert!(append_to_history(&mut log, timestamp, alias));
        assert_eq!(log, before + &history_line(timestamp, alias).unwrap());
        expected.push(entry(alias, timestamp));
        assert_eq!(read_log(&log), Ok(expected.clone()));
    }
    assert_eq!(
        log,
        "1970-01-01T00:00:30Z a\n1970-01-01T00:00:10Z b\n1970-01-01T00:00:20Z a\n1970-01-01T00:00:40Z c\n"
    );
    assert_eq!(
        extract_history(&log),
        Ok(vec![entry("c", 40), entry("a", 30), entry("b", 10)])
    );
}

#[test]
fn append_adds_one_line_and_keeps_the_rest() {
    let mut log = "2024-01-02T03:04:05Z web\n".to_string();
    assert!(append_to_history(&mut log, 1_704_164_646, "db"));
    assert_eq!(log, "2024-01-02T03:04:05Z web\n2024-01-02T03:04:06Z db\n");
    assert_eq!(log.matches('\n').count(), 2);
}

#[test]
fn nothing_is_appended_for_a_time_without_text() {
    let mut log = "2024-01-02T03:04:05Z web\n".to_string();
    assert!(!append_to_history(&mut log, LATEST + 1, "db"));
    assert!(!append_to_history(&mut log, EARLIEST - 1, "db"));
    assert_eq!(log, "2024-01-02T03:04:05Z web\n");
}

#[test]
fn timestamp_of_a_line_is_a_word_of_twenty_characters() {
    for timestamp in [EARLIEST, -1, 0, 1_704_164_645, LATEST] {
        let line = history_line(timestamp, "h").unwrap();
        let stamp = &line[..line.len() - 3];
        assert_eq!(stamp.chars().count(), 20);
        assert!(!stamp.chars().any(blank));
        assert!(line.ends_with(" h\n"));
    }
}
