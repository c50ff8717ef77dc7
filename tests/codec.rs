use leaderboard_bot::codec::{decode, encode, is_pagination_id, ButtonRow, Direction};

#[test]
fn encode_next_button() {
    assert_eq!(encode(1700000000123, Direction::Next, 1), "1700000000123_next_lb_1");
}

#[test]
fn encode_previous_button() {
    assert_eq!(encode(42, Direction::Previous, 0), "42_prev_lb_0");
}

#[test]
fn decode_round_trip() {
    for &(key, index) in &[(0u64, 0usize), (7, 3), (u64::MAX, usize::MAX), (1700000000123, 19)] {
        for dir in [Direction::Next, Direction::Previous] {
            assert_eq!(decode(&encode(key, dir, index)), Some((key, index)));
        }
    }
}

#[test]
fn decode_reads_first_and_last_fields() {
    assert_eq!(decode("12_next_lb_3"), Some((12, 3)));
    assert_eq!(decode("12_x_3"), Some((12, 3)));
    assert_eq!(decode("+12_x_+3"), Some((12, 3)));
}

#[test]
fn decode_rejects_too_few_fields() {
    assert_eq!(decode(""), None);
    assert_eq!(decode("12"), None);
    assert_eq!(decode("12_3"), None);
    assert_eq!(decode("_"), None);
}

#[test]
fn decode_rejects_non_numeric_fields() {
    assert_eq!(decode("ab_next_lb_3"), None);
    assert_eq!(decode("12_next_lb_x"), None);
    assert_eq!(decode("12_next_lb_"), None);
    assert_eq!(decode("_next_lb_3"), None);
    assert_eq!(decode("-1_next_lb_3"), None);
    assert_eq!(decode("+_next_lb_3"), None);
}

#[test]
fn decode_rejects_overflowing_key() {
    assert_eq!(decode("18446744073709551615_next_lb_0"), Some((u64::MAX, 0)));
    assert_eq!(decode("18446744073709551616_next_lb_0"), None);
    assert_eq!(decode("99999999999999999999999_next_lb_0"), None);
}

#[test]
fn pagination_marker_detection() {
    assert!(is_pagination_id("5_next_lb_1"));
    assert!(is_pagination_id("lb"));
    assert!(!is_pagination_id("5_next_1"));
    assert!(!is_pagination_id("l_b"));
    assert!(!is_pagination_id(""));
}

#[test]
fn buttons_on_first_page() {
    let row = ButtonRow::for_page(9, 0, 3);
    assert_eq!(row.previous, None);
    assert_eq!(row.next.as_deref(), Some("9_next_lb_1"));
}

#[test]
fn buttons_on_middle_page() {
    let row = ButtonRow::for_page(9, 1, 3);
    assert_eq!(row.previous.as_deref(), Some("9_prev_lb_0"));
    assert_eq!(row.next.as_deref(), Some("9_next_lb_2"));
}

#[test]
fn buttons_on_last_page() {
    let row = ButtonRow::for_page(9, 2, 3);
    assert_eq!(row.previous.as_deref(), Some("9_prev_lb_1"));
    assert_eq!(row.next, None);
}

#[test]
fn buttons_on_single_page() {
    let row = ButtonRow::for_page(9, 0, 1);
    assert!(row.is_empty());
}
