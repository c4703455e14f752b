use clean_history::config::Config;
use clean_history::lines::{
    dedup_lines, filter_lines, filtered_content, get_filtered_history, get_filtered_history_bytes,
    split_lines,
};

fn strings(v: &[&str]) -> Vec<String> {
    v.iter().map(|x| x.to_string()).collect()
}

fn no_config() -> Config {
    Config { histfile: None, blacklist: None, max_char_limit: None, min_char_limit: None }
}

#[test]
fn duplicates_removed_in_first_order() {
    assert_eq!(filtered_content(b"a\nb\na\nc\n", None), b"a\nb\nc\n".to_vec());
}

#[test]
fn empty_file_stays_empty() {
    assert!(get_filtered_history(b"").is_empty());
    assert_eq!(filtered_content(b"", None), Vec::<u8>::new());
}

#[test]
fn blacklisted_line_removed() {
    let c = Config { blacklist: Some(strings(&["rm -rf /"])), ..no_config() };
    assert_eq!(filtered_content(b"ls\nrm -rf /\nls\n", Some(&c)), b"ls\n".to_vec());
}

#[test]
fn filtering_twice_changes_nothing() {
    let once = filtered_content(b"x\ny\r\nx\n\n\ny\r\nz", None);
    assert_eq!(once, b"x\ny\r\n\nz\n".to_vec());
    assert_eq!(filtered_content(&once, None), once);
}

#[test]
fn lines_keep_first_occurrence_positions() {
    assert_eq!(
        get_filtered_history(b"c\na\nc\nb\na\nd\n"),
        strings(&["c", "a", "b", "d"])
    );
}

#[test]
fn carriage_returns_stay_in_lines() {
    assert_eq!(split_lines("a\r\nb\n"), strings(&["a\r", "b"]));
}

#[test]
fn last_line_without_line_feed() {
    assert_eq!(split_lines("a\nb"), strings(&["a", "b"]));
    assert_eq!(filtered_content(b"a\nb", None), b"a\nb\n".to_vec());
}

#[test]
fn empty_lines_are_lines() {
    assert_eq!(split_lines("\n\na\n"), strings(&["", "", "a"]));
    assert_eq!(dedup_lines(&strings(&["", "", "a"])), strings(&["", "a"]));
}

#[test]
fn deduplication_is_case_sensitive() {
    assert_eq!(dedup_lines(&strings(&["ls", "LS", "ls"])), strings(&["ls", "LS"]));
}

#[test]
fn invalid_utf8_replaced() {
    assert_eq!(get_filtered_history(&[0x61, 0xff, 0x0a, 0x62]), strings(&["a\u{fffd}", "b"]));
    assert_eq!(
        filtered_content(&[0x61, 0xff, 0x0a, 0x61, 0xff], None),
        "a\u{fffd}\n".as_bytes().to_vec()
    );
}

#[test]
fn multibyte_text_round_trips() {
    let once = filtered_content("é\n日本\né\n".as_bytes(), None);
    assert_eq!(once, "é\n日本\n".as_bytes().to_vec());
}

#[test]
fn bytes_of_lines() {
    assert_eq!(get_filtered_history_bytes(&strings(&["a", "", "bc"])), b"a\n\nbc\n".to_vec());
    assert_eq!(get_filtered_history_bytes(&Vec::new()), Vec::<u8>::new());
}

#[test]
fn length_limits_count_characters() {
    let c = Config { min_char_limit: Some(2), max_char_limit: Some(3), ..no_config() };
    assert_eq!(
        filter_lines(&strings(&["a", "ab", "abc", "abcd", "éé"]), &c),
        strings(&["ab", "abc", "éé"])
    );
}

#[test]
fn filters_combine() {
    let c = Config {
        blacklist: Some(strings(&["ls"])),
        max_char_limit: Some(4),
        ..no_config()
    };
    assert_eq!(
        filtered_content(b"ls\ncd /\nls\ngit status\ncd /\n", Some(&c)),
        b"cd /\n".to_vec()
    );
}

#[test]
fn failed_read_gives_read_failed() {
    assert_eq!(
        clean_history::lines::content_from_read(None, None),
        Err(clean_history::protocol::HistFileError::ReadFailed)
    );
}

#[test]
fn read_content_is_filtered() {
    let c = Config { blacklist: Some(strings(&["rm -rf /"])), ..no_config() };
    assert_eq!(
        clean_history::lines::content_from_read(Some(b"ls\nrm -rf /\nls\n"), Some(&c)),
        Ok(b"ls\n".to_vec())
    );
}
