use matching_api_client::chunks;
use matching_api_client::decode_row;
use matching_api_client::fmt_u128;
use matching_api_client::fmt_usize;
use matching_api_client::make_messages_vec;
use matching_api_client::parse_stats_csv;
use matching_api_client::DecodeError;
use matching_api_client::SMKind;
use matching_api_client::StatsTable;

fn row9(received_at: &str, sender: &str, to: &str, body: &str) -> Vec<String> {
    let mut r: Vec<String> = vec![String::new(); 9];
    r[1] = received_at.to_string();
    r[2] = sender.to_string();
    r[3] = to.to_string();
    r[8] = body.to_string();
    r
}

#[test]
fn chunks_exact_and_remainder() {
    let v: Vec<u32> = vec![1, 2, 3, 4, 5];
    let cs = chunks(v, 2);
    assert_eq!(cs.len(), 3);
    assert_eq!(cs[0], vec![1, 2]);
    assert_eq!(cs[1], vec![3, 4]);
    assert_eq!(cs[2], vec![5]);
    let flat: Vec<u32> = cs.into_iter().flatten().collect();
    assert_eq!(flat, vec![1, 2, 3, 4, 5]);
}

#[test]
fn chunks_multiple_of_batch() {
    let v: Vec<u32> = vec![1, 2, 3, 4];
    let cs = chunks(v, 2);
    assert_eq!(cs.len(), 2);
    assert_eq!(cs[0].len(), 2);
    assert_eq!(cs[1].len(), 2);
}

#[test]
fn chunks_empty_input() {
    let v: Vec<u32> = Vec::new();
    let cs = chunks(v, 3);
    assert_eq!(cs.len(), 0);
}

#[test]
fn chunks_batch_larger_than_input() {
    let v: Vec<u32> = vec![1, 2];
    let cs = chunks(v, 10);
    assert_eq!(cs.len(), 1);
    assert_eq!(cs[0], vec![1, 2]);
}

#[test]
fn decode_takes_fixed_positions() {
    let r = row9("2021-01-02", "555", "666", "hello there");
    let m = decode_row(&r).unwrap();
    assert_eq!(m.received_at, "2021-01-02");
    assert_eq!(m.sender, "555");
    assert_eq!(m.to, "666");
    assert_eq!(m.text, "hello there");
    assert!(matches!(m.kind, SMKind::Advertisement));
    assert_eq!(m.template_id, None);
    assert_eq!(m.weight, None);
}

#[test]
fn decode_short_row_is_missing_field() {
    let r: Vec<String> = vec!["a".to_string(); 5];
    assert!(matches!(decode_row(&r), Err(DecodeError::MissingField(8))));
    let r2: Vec<String> = vec!["a".to_string()];
    assert!(matches!(decode_row(&r2), Err(DecodeError::MissingField(1))));
    let r3: Vec<String> = vec!["a".to_string(); 3];
    assert!(matches!(decode_row(&r3), Err(DecodeError::MissingField(3))));
}

#[test]
fn decode_batch_stops_at_first_bad_row() {
    let rows = vec![row9("t1", "s1", "r1", "b1"), vec!["x".to_string(); 2], row9("t3", "s3", "r3", "b3")];
    assert!(matches!(make_messages_vec(&rows), Err(DecodeError::MissingField(2))));
    let good = vec![row9("t1", "s1", "r1", "b1"), row9("t2", "s2", "r2", "b2")];
    let msgs = make_messages_vec(&good).unwrap();
    assert_eq!(msgs.len(), 2);
    assert_eq!(msgs[1].text, "b2");
}

#[test]
fn aggregator_doubles_on_repeat() {
    let mut t = StatsTable::new();
    t.append(7, 11);
    t.append(7, 11);
    assert_eq!(t.templates.len(), 1);
    assert_eq!(t.templates[0].0, 7);
    assert_eq!(t.templates[0].1.msg_count, 2);
    assert_eq!(t.templates[0].1.msg_weight, 22);
    assert_eq!(t.total_msgs, 2);
}

#[test]
fn aggregator_independent_entries() {
    let mut t = StatsTable::new();
    t.append(1, 10);
    t.append(2, 20);
    assert_eq!(t.templates.len(), 2);
    assert_eq!(t.templates[0].0, 1);
    assert_eq!(t.templates[0].1.msg_count, 1);
    assert_eq!(t.templates[0].1.msg_weight, 10);
    assert_eq!(t.templates[1].0, 2);
    assert_eq!(t.templates[1].1.msg_count, 1);
    assert_eq!(t.templates[1].1.msg_weight, 20);
    assert_eq!(t.total_msgs, 2);
}

#[test]
fn decimal_rendering_is_exact() {
    assert_eq!(fmt_u128(0), "0");
    assert_eq!(fmt_u128(7), "7");
    assert_eq!(fmt_u128(12345), "12345");
    assert_eq!(fmt_usize(usize::MAX), usize::MAX.to_string());
    assert_eq!(fmt_u128(u128::MAX), u128::MAX.to_string());
}

#[test]
fn stats_csv_round_trip_in_memory() {
    let mut t = StatsTable::new();
    t.append(5, 10);
    t.append(12, 3);
    t.append(5, 4);
    let text = t.to_csv();
    assert_eq!(text, "5,2,14\n12,1,3\n");
    let parsed = parse_stats_csv(&text).unwrap();
    let expected: Vec<(usize, usize, u128)> = t
        .templates
        .iter()
        .map(|e| (e.0, e.1.msg_count, e.1.msg_weight))
        .collect();
    assert_eq!(parsed, expected);
}

#[test]
fn stats_csv_round_trip_empty() {
    let t = StatsTable::new();
    let text = t.to_csv();
    assert_eq!(text, "");
    assert_eq!(parse_stats_csv(&text), Some(Vec::new()));
}

#[test]
fn parse_rejects_malformed_text() {
    assert_eq!(parse_stats_csv("5,1\n"), None);
    assert_eq!(parse_stats_csv("5,1,2"), None);
    assert_eq!(parse_stats_csv("a,b,c\n"), None);
    assert_eq!(parse_stats_csv("5,,2\n"), None);
    assert_eq!(parse_stats_csv("5,1,2,3\n"), None);
    assert_eq!(parse_stats_csv("5,1,2\nrest"), None);
}

#[test]
fn parse_rejects_oversize_values() {
    let too_big = format!("{},1,2\n", u128::MAX);
    assert_eq!(parse_stats_csv(&too_big), None);
    let fits = format!("{},1,2\n", usize::MAX);
    assert_eq!(
        parse_stats_csv(&fits),
        Some(vec![(usize::MAX, 1usize, 2u128)])
    );
}
