use stat_engine::time_pattern::{parse_time_to_seconds_batch, seconds_from_groups, TimeReader};
use stat_engine::time_text::parse_time_string_fast;

fn texts(items: &[&str]) -> Vec<String> {
    items.iter().map(|s| s.to_string()).collect()
}

#[test]
fn matching_texts_are_read() {
    let batch = texts(&["01:00:00", "1:00:00", "12:34:56", "99:99:99", "00:00:00"]);
    let seconds = parse_time_to_seconds_batch(&batch).unwrap();
    assert_eq!(seconds, vec![3600, 3600, 45296, 99 * 3600 + 99 * 60 + 99, 0]);
}

#[test]
fn texts_off_the_pattern_are_zero() {
    let batch = texts(&[
        "", "12:34", "001:00:00", "12:5:00", "12:34:5", "12:34:567", "a1:00:00", " 01:00:00",
        "01:00:00 ", "01:00:00\n", "+1:00:00", "1:2:3", "01-00-00", "01:00:00:00",
    ]);
    let seconds = parse_time_to_seconds_batch(&batch).unwrap();
    assert_eq!(seconds, vec![0; batch.len()]);
}

#[test]
fn batch_keeps_order_and_length() {
    let batch = texts(&["00:00:01", "bad", "00:00:03", "00:01:00"]);
    let seconds = parse_time_to_seconds_batch(&batch).unwrap();
    assert_eq!(seconds, vec![1, 0, 3, 60]);
    assert_eq!(parse_time_to_seconds_batch(&Vec::new()).unwrap(), Vec::<u64>::new());
}

#[test]
fn digits_of_other_scripts_match_but_count_as_zero() {
    let reader = TimeReader::new().unwrap();
    assert_eq!(reader.read("1\u{0662}:34:56"), 34 * 60 + 56);
    assert_eq!(reader.read("\u{0661}\u{0662}:\u{0663}\u{0664}:\u{0665}\u{0666}"), 0);
    assert_eq!(reader.read("12:34:5\u{0666}"), 12 * 3600 + 34 * 60);
}

#[test]
fn both_readers_agree_on_well_formed_texts() {
    let reader = TimeReader::new().unwrap();
    for hours in [0u64, 1, 9, 10, 23, 99] {
        for minutes in [0u64, 1, 30, 59, 99] {
            for seconds in [0u64, 7, 59, 99] {
                let text = format!("{:02}:{:02}:{:02}", hours, minutes, seconds);
                let expected = hours * 3600 + minutes * 60 + seconds;
                assert_eq!(reader.read(&text), expected);
                assert_eq!(parse_time_string_fast(&text), expected);
            }
        }
    }
    assert_eq!(reader.read("7:05:09"), parse_time_string_fast("7:05:09"));
}

#[test]
fn groups_are_read_one_by_one() {
    let group = |s: &str| Some(s.to_string());
    assert_eq!(seconds_from_groups(&None), 0);
    assert_eq!(
        seconds_from_groups(&Some(vec![group("01:02:03"), group("01"), group("02"), group("03")])),
        3723
    );
    assert_eq!(
        seconds_from_groups(&Some(vec![group("x"), group("1"), None, group("3")])),
        3603
    );
    assert_eq!(seconds_from_groups(&Some(vec![group("x"), group("1")])), 3600);
    assert_eq!(seconds_from_groups(&Some(Vec::new())), 0);
    assert_eq!(
        seconds_from_groups(&Some(vec![None, group("4294967295"), group("zz"), group("+5")])),
        4294967295u64 * 3600 + 5
    );
}
