use std::cmp::Ordering;
use user_ranking::aggregate::Aggregator;
use user_ranking::decimal::parse_counter;
use user_ranking::reader::{aggregate_files, decode_rows, has_csv_extension, parse_records, read_csv, ParseError};
use user_ranking::record::Record;

fn rec(user: &str, quests: u64, raids: u64, spawns: u64) -> Record {
    Record { user: user.to_string(), quests, raids, spawns }
}

fn fields(rows: &[&[&str]]) -> Vec<Vec<String>> {
    rows.iter().map(|r| r.iter().map(|f| f.to_string()).collect()).collect()
}

fn summary(records: &[Record]) -> Vec<(String, u64, u64, u64)> {
    records.iter().map(|r| (r.user.clone(), r.quests, r.raids, r.spawns)).collect()
}

const HEADER: &str = "user;quests;raids;spawns\n";

#[test]
fn new_record_has_zero_counters() {
    let r = Record::new("alice".to_string());
    assert_eq!(r.user, "alice");
    assert_eq!((r.quests, r.raids, r.spawns), (0, 0, 0));
}

#[test]
fn get_key_is_the_user() {
    let r = rec("bob", 1, 2, 3);
    assert_eq!(r.get_key(), "bob");
}

#[test]
fn merge_adds_counters_and_keeps_user() {
    let mut a = rec("alice", 3, 1, 0);
    a.merge_into(&rec("other", 2, 0, 1));
    assert_eq!(a.user, "alice");
    assert_eq!((a.quests, a.raids, a.spawns), (5, 1, 1));
}

#[test]
fn merge_saturates_at_the_largest_counter() {
    let mut a = rec("alice", u64::MAX - 1, 7, 0);
    a.merge_into(&rec("alice", 5, 1, 2));
    assert_eq!((a.quests, a.raids, a.spawns), (u64::MAX, 8, 2));
}

#[test]
fn higher_total_ranks_first() {
    let a = rec("alice", 5, 1, 1);
    let b = rec("bob", 0, 0, 5);
    assert_eq!(a.compare(&b), Ordering::Less);
    assert_eq!(b.compare(&a), Ordering::Greater);
    assert_eq!(a.partial_cmp(&b), Some(Ordering::Less));
    assert!(a < b);
}

#[test]
fn equal_totals_fewer_spawns_first() {
    let a = rec("a", 1, 1, 7);
    let b = rec("b", 2, 0, 3);
    assert_eq!(a.compare(&b), Ordering::Greater);
    assert_eq!(b.compare(&a), Ordering::Less);
    assert_eq!(a.compare(&rec("c", 0, 2, 7)), Ordering::Equal);
}

#[test]
fn compare_does_not_overflow_on_large_counters() {
    let a = rec("a", u64::MAX, u64::MAX, 0);
    let b = rec("b", u64::MAX, u64::MAX - 1, 0);
    assert_eq!(a.compare(&b), Ordering::Less);
}

#[test]
fn equality_ignores_the_user() {
    let a = rec("alice", 1, 2, 3);
    let b = rec("bob", 1, 2, 3);
    assert!(a == b);
    assert!(a != rec("alice", 1, 2, 4));
}

#[test]
fn counter_fields() {
    assert_eq!(parse_counter("42"), Some(42));
    assert_eq!(parse_counter("0"), Some(0));
    assert_eq!(parse_counter("+7"), Some(7));
    assert_eq!(parse_counter("007"), Some(7));
    assert_eq!(parse_counter("18446744073709551615"), Some(u64::MAX));
    assert_eq!(parse_counter("18446744073709551616"), None);
    assert_eq!(parse_counter("99999999999999999999x"), None);
    assert_eq!(parse_counter(""), None);
    assert_eq!(parse_counter("+"), None);
    assert_eq!(parse_counter("-1"), None);
    assert_eq!(parse_counter("4x"), None);
    assert_eq!(parse_counter(" 4"), None);
}

#[test]
fn decode_checks_header_and_rows() {
    let ok = decode_rows(&fields(&[&["user", "quests", "raids", "spawns"], &["alice", "3", "1", "0"]])).unwrap();
    assert_eq!(summary(&ok), vec![("alice".to_string(), 3, 1, 0)]);
    assert_eq!(decode_rows(&Vec::new()).unwrap().len(), 0);
    assert_eq!(
        decode_rows(&fields(&[&["user", "raids", "quests", "spawns"]])).unwrap_err(),
        ParseError::BadHeader
    );
    assert_eq!(
        decode_rows(&fields(&[&["user", "quests", "raids", "spawns"], &["a", "1", "2", "3"], &["b", "1", "2"]]))
            .unwrap_err(),
        ParseError::FieldCount { row: 2 }
    );
    assert_eq!(
        decode_rows(&fields(&[&["user", "quests", "raids", "spawns"], &["a", "1", "x", "3"], &["b", "1", "2"]]))
            .unwrap_err(),
        ParseError::BadCounter { row: 1 }
    );
}

#[test]
fn parse_splits_on_semicolons() {
    let text = format!("{}alice;3;1;0\nbob;0;0;5\n", HEADER);
    let v = parse_records(text.as_bytes()).unwrap();
    assert_eq!(summary(&v), vec![("alice".to_string(), 3, 1, 0), ("bob".to_string(), 0, 0, 5)]);
}

#[test]
fn parse_rejects_commas_and_bad_bytes() {
    assert_eq!(parse_records(b"user,quests,raids,spawns\n").unwrap_err(), ParseError::BadHeader);
    assert_eq!(parse_records(b"user;quests;raids;spawns\n\xff\xfe;1;2;3\n").unwrap_err(), ParseError::Malformed);
    assert_eq!(parse_records(b"").unwrap().len(), 0);
    assert_eq!(parse_records(HEADER.as_bytes()).unwrap().len(), 0);
}

#[test]
fn read_csv_leaves_map_unchanged_on_error() {
    let mut agg = Aggregator::new();
    read_csv(format!("{}alice;1;1;1\n", HEADER).as_bytes(), &mut agg).unwrap();
    let bad = format!("{}bob;1;1;1\ncarol;x;1;1\n", HEADER);
    assert_eq!(read_csv(bad.as_bytes(), &mut agg), Err(ParseError::BadCounter { row: 2 }));
    assert_eq!(summary(&agg.ranked()), vec![("alice".to_string(), 1, 1, 1)]);
}

#[test]
fn two_files_aggregate_and_rank() {
    let a = format!("{}alice;3;1;0\nbob;0;0;5\n", HEADER).into_bytes();
    let b = format!("{}alice;2;0;1\n", HEADER).into_bytes();
    let agg = aggregate_files(&vec![a, b]).unwrap();
    assert_eq!(summary(&agg.ranked()), vec![("alice".to_string(), 5, 1, 1), ("bob".to_string(), 0, 0, 5)]);
}

#[test]
fn tie_on_total_fewer_spawns_first() {
    let a = format!("{}carol;2;2;9\ndave;1;3;4\n", HEADER).into_bytes();
    let agg = aggregate_files(&vec![a]).unwrap();
    assert_eq!(summary(&agg.ranked()), vec![("dave".to_string(), 1, 3, 4), ("carol".to_string(), 2, 2, 9)]);
}

#[test]
fn no_files_give_an_empty_ranking() {
    let agg = aggregate_files(&Vec::new()).unwrap();
    assert!(agg.ranked().is_empty());
}

#[test]
fn file_and_row_order_do_not_change_totals() {
    let a = format!("{}alice;3;1;0\nbob;0;0;5\n", HEADER).into_bytes();
    let b = format!("{}bob;1;0;0\nalice;2;0;1\n", HEADER).into_bytes();
    let c = format!("{}alice;2;0;1\nbob;0;0;5\nbob;1;0;0\nalice;3;1;0\n", HEADER).into_bytes();
    let one = summary(&aggregate_files(&vec![a.clone(), b.clone()]).unwrap().ranked());
    let two = summary(&aggregate_files(&vec![b, a]).unwrap().ranked());
    let three = summary(&aggregate_files(&vec![c]).unwrap().ranked());
    assert_eq!(one, two);
    assert_eq!(one, three);
}

#[test]
fn one_entry_per_user_with_exact_sums() {
    let a = format!("{}alice;1;2;3\nalice;10;20;30\nbob;4;4;4\n", HEADER).into_bytes();
    let b = format!("{}alice;100;200;300\n", HEADER).into_bytes();
    let agg = aggregate_files(&vec![a, b]).unwrap();
    assert_eq!(agg.entries().len(), 2);
    assert_eq!(summary(&agg.ranked()), vec![("alice".to_string(), 111, 222, 333), ("bob".to_string(), 4, 4, 4)]);
}

#[test]
fn first_failing_file_is_reported() {
    let good = format!("{}alice;1;1;1\n", HEADER).into_bytes();
    let bad = b"who;quests;raids;spawns\n".to_vec();
    let worse = format!("{}alice;1\n", HEADER).into_bytes();
    assert_eq!(aggregate_files(&vec![good, bad, worse]).err(), Some(ParseError::BadHeader));
}

#[test]
fn only_lower_case_csv_files_are_read() {
    assert!(!has_csv_extension("notes.txt"));
    assert!(!has_csv_extension("report.CSV"));
    assert!(!has_csv_extension("data.Csv"));
    assert!(!has_csv_extension(".csv"));
    assert!(!has_csv_extension("csv"));
    assert!(has_csv_extension("part1.csv"));
    assert!(has_csv_extension("a.b.csv"));
}
