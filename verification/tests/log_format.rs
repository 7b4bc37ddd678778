use vault_purge::inventory::{DeletedInventory, LogRead};
use vault_purge::progress_log::{log_entry, split_lines};

fn std_lines(text: &str) -> Vec<String> {
    text.lines().map(String::from).collect()
}

#[test]
fn empty_text_has_no_lines() {
    assert_eq!(split_lines(""), Vec::<String>::new());
}

#[test]
fn final_line_ending_is_optional() {
    assert_eq!(split_lines("a\nb\n"), vec!["a".to_string(), "b".to_string()]);
    assert_eq!(split_lines("a\nb"), vec!["a".to_string(), "b".to_string()]);
}

#[test]
fn blank_lines_are_kept() {
    assert_eq!(split_lines("a\n\nb\n"), vec!["a".to_string(), String::new(), "b".to_string()]);
    assert_eq!(split_lines("\n"), vec![String::new()]);
    assert_eq!(split_lines("\n\n"), vec![String::new(), String::new()]);
}

#[test]
fn carriage_return_before_line_feed_is_dropped() {
    assert_eq!(split_lines("a\r\nb\r\n"), vec!["a".to_string(), "b".to_string()]);
    assert_eq!(split_lines("a\r\r\n"), vec!["a\r".to_string()]);
    assert_eq!(split_lines("\r\n"), vec![String::new()]);
}

#[test]
fn lone_carriage_return_belongs_to_the_line() {
    assert_eq!(split_lines("a\rb\n"), vec!["a\rb".to_string()]);
    assert_eq!(split_lines("a\r"), vec!["a\r".to_string()]);
    assert_eq!(split_lines("\r"), vec!["\r".to_string()]);
    assert_eq!(split_lines("a\r\nb\r"), vec!["a".to_string(), "b\r".to_string()]);
}

#[test]
fn split_lines_agrees_with_std() {
    let samples = [
        "",
        "\n",
        "\r",
        "\r\n",
        "\n\r",
        "\r\r",
        "\r\r\n",
        "a",
        "a\n",
        "a\r\n",
        "a\r",
        "a\nb",
        "a\n\nb",
        "a\r\n\r\nb\r\n",
        "one\ntwo\r\nthree\rfour\n\n",
        "id-1\nid-2\nid-1\n",
        "caf\u{e9}\n\u{1f9ca}\r\nz",
        " leading\ntrailing \n\t\n",
    ];
    for sample in samples {
        assert_eq!(split_lines(sample), std_lines(sample), "for {:?}", sample);
    }
}

#[test]
fn log_entry_is_id_and_line_feed() {
    assert_eq!(log_entry("abc"), "abc\n");
    assert_eq!(log_entry(""), "\n");
}

#[test]
fn appended_entry_reads_back_as_one_more_line() {
    let mut log = String::from("B\n");
    let before = split_lines(&log);
    log.push_str(&log_entry("A"));
    let mut expected = before.clone();
    expected.push("A".to_string());
    assert_eq!(split_lines(&log), expected);
}

#[test]
fn deleted_inventory_collects_lines_as_a_set() {
    let deleted = DeletedInventory::new("B\nA\nB\n");
    assert_eq!(deleted.ids.len(), 2);
    assert!(deleted.ids.contains("A"));
    assert!(deleted.ids.contains("B"));
    assert!(!deleted.ids.contains("C"));
}

#[test]
fn deleted_inventory_of_empty_log_is_empty() {
    let deleted = DeletedInventory::new("");
    assert_eq!(deleted.ids.len(), 0);
    assert!(deleted.ids.is_empty());
}

#[test]
fn missing_log_is_bootstrapped() {
    let opening = match DeletedInventory::open(LogRead::Missing) {
        Ok(opening) => opening,
        Err(_) => panic!("a missing log is no error"),
    };
    assert!(opening.create);
    assert!(opening.deleted.ids.is_empty());
}

#[test]
fn found_log_is_read_and_not_created() {
    let opening = match DeletedInventory::open(LogRead::Found("x\ny\n".to_string())) {
        Ok(opening) => opening,
        Err(_) => panic!("a log that was read is no error"),
    };
    assert!(!opening.create);
    assert_eq!(opening.deleted.ids.len(), 2);
    assert!(opening.deleted.ids.contains("x"));
    assert!(opening.deleted.ids.contains("y"));
}

#[test]
fn unreadable_log_stops_the_run() {
    match DeletedInventory::open(LogRead::Failed("permission denied".to_string())) {
        Ok(_) => panic!("an unreadable log is an error"),
        Err(e) => assert_eq!(e.cause, "permission denied"),
    }
}
