use bundle_watch::ledger::{Ledger, LedgerError};
use bundle_watch::sync::{consider, finish};
use bundle_watch::product::{MediaType, Product, UtcTime};

fn listing(machine_name: &str, end: i64) -> Product {
    Product {
        author: "a".to_string(),
        name: machine_name.to_uppercase(),
        machine_name: machine_name.to_string(),
        media_type: MediaType::Software,
        start_time: UtcTime { secs: 0, nanos: 0 },
        end_time: UtcTime { secs: end, nanos: 0 },
        description: String::new(),
        detail_text: String::new(),
        blurb: String::new(),
        short_blurb: String::new(),
        msrp: 1,
        high_price: 1,
        low_price: 1,
        product_url: String::new(),
        logo_url: String::new(),
        thumbnail_url: String::new(),
        item_names: vec![],
        charity_names: vec![],
    }
}

#[test]
fn ledger_round_trip_two_entries() {
    let mut l = Ledger::new();
    l.insert("a".to_string(), 100);
    l.insert("b".to_string(), 200);
    let text = l.to_message();
    assert_eq!(text, "```a,100\nb,200```");
    let back = Ledger::from_message(&text).unwrap();
    assert_eq!(back.get("a"), Some(100));
    assert_eq!(back.get("b"), Some(200));
    assert_eq!(back.entries.len(), 2);
}

#[test]
fn ledger_round_trip_other_order() {
    let mut l = Ledger::new();
    l.insert("b".to_string(), 200);
    l.insert("a".to_string(), 100);
    let back = Ledger::from_message(&l.to_message()).unwrap();
    assert_eq!(back.get("a"), Some(100));
    assert_eq!(back.get("b"), Some(200));
    assert_eq!(back.entries.len(), 2);
}

#[test]
fn ledger_empty_round_trip() {
    let l = Ledger::new();
    let text = l.to_message();
    assert_eq!(text, "``````");
    let back = Ledger::from_message(&text).unwrap();
    assert!(back.entries.is_empty());
}

#[test]
fn ledger_extreme_ends() {
    let mut l = Ledger::new();
    l.insert("lo".to_string(), i64::MIN);
    l.insert("hi".to_string(), i64::MAX);
    let back = Ledger::from_message(&l.to_message()).unwrap();
    assert_eq!(back.get("lo"), Some(i64::MIN));
    assert_eq!(back.get("hi"), Some(i64::MAX));
}

#[test]
fn ledger_parse_tolerates_whitespace_and_later_duplicates() {
    let back = Ledger::from_message("```\n  x,1\ny,+2\nx,3\n```").unwrap();
    assert_eq!(back.get("x"), Some(3));
    assert_eq!(back.get("y"), Some(2));
    assert_eq!(back.entries.len(), 2);
}

#[test]
fn ledger_parse_missing_comma() {
    assert_eq!(Ledger::from_message("```a,1\nb```").unwrap_err(), LedgerError::MissingComma);
    assert_eq!(Ledger::from_message("```a,1\n\nb,2```").unwrap_err(), LedgerError::MissingComma);
    // a missing comma is reported before a bad number on an earlier line
    assert_eq!(Ledger::from_message("```a,x\nb```").unwrap_err(), LedgerError::MissingComma);
}

#[test]
fn ledger_parse_bad_timestamp() {
    assert_eq!(Ledger::from_message("```a,1.5```").unwrap_err(), LedgerError::BadTimestamp);
    assert_eq!(Ledger::from_message("```a,1,2```").unwrap_err(), LedgerError::BadTimestamp);
    assert_eq!(Ledger::from_message("```a,```").unwrap_err(), LedgerError::BadTimestamp);
    assert_eq!(
        Ledger::from_message("```a,9223372036854775808```").unwrap_err(),
        LedgerError::BadTimestamp
    );
}

#[test]
fn ledger_insert_replaces() {
    let mut l = Ledger::new();
    l.insert("a".to_string(), 1);
    l.insert("a".to_string(), 2);
    assert_eq!(l.get("a"), Some(2));
    assert_eq!(l.entries.len(), 1);
    assert!(l.contains("a"));
    assert!(!l.contains("b"));
}

#[test]
fn finish_prunes_ended_entries() {
    let mut l = Ledger::new();
    l.insert("old".to_string(), 50);
    l.insert("edge".to_string(), 100);
    l.insert("new".to_string(), 101);
    finish(&mut l, 100);
    assert_eq!(l.get("old"), None);
    assert_eq!(l.get("edge"), None);
    assert_eq!(l.get("new"), Some(101));
    assert_eq!(l.to_message(), "```new,101```");
}

#[test]
fn second_pass_announces_nothing() {
    let catalog = vec![listing("a", 1000), listing("b", 2000), listing("a", 3000)];
    let mut record = Ledger::from_message("```c,500```").unwrap();
    let first: Vec<bool> = catalog.iter().map(|p| consider(&mut record, p)).collect();
    assert_eq!(first, vec![true, true, false]);
    assert_eq!(record.get("a"), Some(1000));
    finish(&mut record, 100);
    let saved = record.to_message();
    let mut again = Ledger::from_message(&saved).unwrap();
    let second: Vec<bool> = catalog.iter().map(|p| consider(&mut again, p)).collect();
    assert_eq!(second, vec![false, false, false]);
    finish(&mut again, 100);
    assert_eq!(again.to_message(), saved);
}

#[test]
fn known_listing_is_skipped() {
    let mut record = Ledger::from_message("```a,999```").unwrap();
    assert!(!consider(&mut record, &listing("a", 5)));
    assert_eq!(record.get("a"), Some(999));
    assert!(consider(&mut record, &listing("b", 5)));
    assert_eq!(record.get("b"), Some(5));
}

#[test]
fn new_ledger_is_empty() {
    let l = Ledger::new();
    assert!(l.entries.is_empty());
    assert_eq!(l.get("a"), None);
}
