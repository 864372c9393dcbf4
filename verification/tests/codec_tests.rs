use best_goats::codec::{encode_favorites, parse_favorites, parse_goat_id};

#[test]
fn encode_concrete() {
    assert_eq!(encode_favorites(&vec![7, 3, 12]), "[7,3,12]");
}

#[test]
fn encode_empty() {
    assert_eq!(encode_favorites(&vec![]), "[]");
}

#[test]
fn encode_single() {
    assert_eq!(encode_favorites(&vec![0]), "[0]");
}

#[test]
fn parse_round_trip_concrete() {
    assert_eq!(parse_favorites("[7,3,12]"), Some(vec![7, 3, 12]));
    assert_eq!(parse_favorites(&encode_favorites(&vec![42])), Some(vec![42]));
}

#[test]
fn parse_empty_list() {
    assert_eq!(parse_favorites("[]"), Some(vec![]));
}

#[test]
fn parse_zero() {
    assert_eq!(parse_favorites("[0]"), Some(vec![0]));
}

#[test]
fn parse_max_id() {
    assert_eq!(parse_favorites("[4294967295]"), Some(vec![4294967295]));
}

#[test]
fn parse_rejects_overflow() {
    assert_eq!(parse_favorites("[4294967296]"), None);
}

#[test]
fn parse_rejects_leading_zero() {
    assert_eq!(parse_favorites("[01]"), None);
}

#[test]
fn parse_rejects_whitespace() {
    assert_eq!(parse_favorites("[1, 2]"), None);
}

#[test]
fn parse_rejects_garbage() {
    assert_eq!(parse_favorites("goat"), None);
    assert_eq!(parse_favorites(""), None);
    assert_eq!(parse_favorites("[1,]"), None);
    assert_eq!(parse_favorites("[,1]"), None);
    assert_eq!(parse_favorites("[1"), None);
}

#[test]
fn goat_id_plain() {
    assert_eq!(parse_goat_id("7"), Some(7));
}

#[test]
fn goat_id_plus_sign() {
    assert_eq!(parse_goat_id("+7"), Some(7));
}

#[test]
fn goat_id_leading_zeros() {
    assert_eq!(parse_goat_id("007"), Some(7));
}

#[test]
fn goat_id_rejects_text() {
    assert_eq!(parse_goat_id("abc"), None);
    assert_eq!(parse_goat_id(""), None);
    assert_eq!(parse_goat_id("-1"), None);
    assert_eq!(parse_goat_id("1x"), None);
}

#[test]
fn goat_id_rejects_overflow() {
    assert_eq!(parse_goat_id("4294967296"), None);
    assert_eq!(parse_goat_id("4294967295"), Some(4294967295));
}
