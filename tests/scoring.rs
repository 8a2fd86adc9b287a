use receipt_points::receipt::{item_points_of, score, Item, Receipt};
use receipt_points::rules::{
    alnum_chars, description_counts, odd_date, price_points_of, time_check, total_points_of,
};

fn item(desc: &str, price: &str) -> Item {
    Item { desc: desc.to_string(), price: price.to_string() }
}

fn receipt(retailer: &str, date: &str, time: &str, items: Vec<Item>, total: &str) -> Receipt {
    Receipt {
        retailer: retailer.to_string(),
        date: date.to_string(),
        time: time.to_string(),
        items,
        total: total.to_string(),
    }
}

fn target_receipt() -> Receipt {
    receipt(
        "Target",
        "2022-01-01",
        "13:01",
        vec![
            item("Mountain Dew 12PK", "6.49"),
            item("Emils Cheese Pizza", "12.25"),
            item("Knorr Creamy Chicken", "1.26"),
            item("Doritos Nacho Cheese", "3.35"),
            item("   Klarbrunn 12-PK 12 FL OZ  ", "12.00"),
        ],
        "35.35",
    )
}

#[test]
fn target_receipt_scores_28() {
    assert_eq!(score(&target_receipt()), Some(28));
}

#[test]
fn corner_market_receipt_scores_109() {
    let r = receipt(
        "M&M Corner Market",
        "2022-03-20",
        "14:33",
        vec![
            item("Gatorade", "2.25"),
            item("Gatorade", "2.25"),
            item("Gatorade", "2.25"),
            item("Gatorade", "2.25"),
        ],
        "9.00",
    );
    assert_eq!(score(&r), Some(109));
}

#[test]
fn round_total_earns_both_total_rules() {
    assert_eq!(total_points_of("9.00"), 75);
}

#[test]
fn total_rules_edge_cases() {
    assert_eq!(total_points_of("35.35"), 0);
    assert_eq!(total_points_of("9.25"), 25);
    assert_eq!(total_points_of("9.5"), 25);
    assert_eq!(total_points_of("9"), 75);
    assert_eq!(total_points_of("9."), 75);
    assert_eq!(total_points_of(".75"), 25);
    assert_eq!(total_points_of("-9.00"), 75);
    assert_eq!(total_points_of("+1.50"), 25);
    assert_eq!(total_points_of("0.249"), 25);
    assert_eq!(total_points_of("0.244"), 0);
    assert_eq!(total_points_of("123456789012345678901234567890.00"), 75);
}

#[test]
fn malformed_total_earns_nothing() {
    assert_eq!(total_points_of(""), 0);
    assert_eq!(total_points_of("."), 0);
    assert_eq!(total_points_of("-"), 0);
    assert_eq!(total_points_of("abc"), 0);
    assert_eq!(total_points_of("9.00x"), 0);
    assert_eq!(total_points_of("1.2.3"), 0);
}

#[test]
fn afternoon_window_bounds() {
    assert!(time_check("16:00"));
    assert!(!time_check("16:01"));
    assert!(time_check("14:00"));
    assert!(time_check("14:59"));
    assert!(time_check("15:30"));
    assert!(!time_check("13:59"));
    assert!(!time_check("17:00"));
}

#[test]
fn malformed_time_earns_nothing() {
    assert!(!time_check("14"));
    assert!(!time_check("xx:00"));
    assert!(!time_check("14:xx"));
    assert!(!time_check(""));
    assert!(!time_check("-14:00"));
}

#[test]
fn odd_day_of_month() {
    assert!(odd_date("2022-01-01"));
    assert!(!odd_date("2022-03-20"));
    assert!(odd_date("2022-03-31"));
    assert!(odd_date("2022-03-+7"));
    assert!(!odd_date("2022-03"));
    assert!(!odd_date("2022-03-xx"));
    assert!(!odd_date("2022-03-"));
    assert!(odd_date("2022-03-05-extra"));
    assert!(!odd_date("2022-03-99999999999999999999999"));
}

#[test]
fn alphanumeric_count_of_retailer() {
    assert_eq!(alnum_chars("Target"), 6);
    assert_eq!(alnum_chars("M&M Corner Market"), 14);
    assert_eq!(alnum_chars("  --  "), 0);
    assert_eq!(alnum_chars("Caf\u{e9} 7"), 5);
}

#[test]
fn description_length_multiple_of_three() {
    assert!(description_counts("Emils Cheese Pizza"));
    assert!(description_counts("   Klarbrunn 12-PK 12 FL OZ  "));
    assert!(!description_counts("Mountain Dew 12PK"));
    assert!(description_counts("   "));
    assert!(description_counts(""));
    assert!(description_counts("\u{e9}t\u{e9}"));
}

#[test]
fn price_fifth_rounded_up() {
    assert_eq!(price_points_of("12.25"), Some(3));
    assert_eq!(price_points_of("12.00"), Some(3));
    assert_eq!(price_points_of("10.00"), Some(2));
    assert_eq!(price_points_of("10.01"), Some(3));
    assert_eq!(price_points_of("0"), Some(0));
    assert_eq!(price_points_of("-5.00"), Some(0));
    assert_eq!(price_points_of("abc"), Some(0));
    assert_eq!(price_points_of("92233720368547758075"), Some(18446744073709551615));
    assert_eq!(price_points_of("92233720368547758076"), None);
}

#[test]
fn item_with_unparsable_price_earns_nothing() {
    assert_eq!(item_points_of(&item("abc", "x")), Some(0));
    assert_eq!(item_points_of(&item("abc", "10.01")), Some(3));
    assert_eq!(item_points_of(&item("abcd", "10.01")), Some(0));
    let r = receipt(
        "",
        "",
        "",
        vec![item("abc", "oops"), item("def", "5.00")],
        "",
    );
    assert_eq!(score(&r), Some(5 + 1));
}

#[test]
fn item_pairs() {
    let one = receipt("", "", "", vec![item("a", "1")], "x");
    let two = receipt("", "", "", vec![item("a", "1"), item("b", "1")], "x");
    assert_eq!(score(&one), Some(0));
    assert_eq!(score(&two), Some(5));
}

#[test]
fn empty_receipt_scores_zero() {
    assert_eq!(score(&receipt("", "", "", vec![], "")), Some(0));
}

#[test]
fn score_is_deterministic() {
    let r = target_receipt();
    assert_eq!(score(&r), score(&r.clone()));
}

#[test]
fn toggling_one_rule_changes_score_by_its_points() {
    let base = score(&target_receipt()).unwrap();
    let mut even_day = target_receipt();
    even_day.date = "2022-01-02".to_string();
    assert_eq!(score(&even_day).unwrap() + 6, base);
    let mut afternoon = target_receipt();
    afternoon.time = "14:10".to_string();
    assert_eq!(score(&afternoon).unwrap(), base + 10);
    let mut quarter = target_receipt();
    quarter.total = "35.25".to_string();
    assert_eq!(score(&quarter).unwrap(), base + 25);
}

#[test]
fn score_too_large_is_none() {
    let r = receipt(
        "",
        "",
        "",
        vec![
            item("abc", "92233720368547758075"),
            item("abc", "92233720368547758075"),
        ],
        "",
    );
    assert_eq!(score(&r), None);
}
