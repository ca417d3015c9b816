use harla_zk::api::{Private, PublicChain, PublicQr, QrRequest, Relation};
use harla_zk::dates::{age_to_delta, date_to_day_number};

#[test]
fn day_numbers_of_known_dates() {
    assert_eq!(date_to_day_number(1, 1, 1), Some(1));
    assert_eq!(date_to_day_number(2, 1, 1), Some(366));
    assert_eq!(date_to_day_number(0, 1, 1), Some(-365));
    assert_eq!(date_to_day_number(1970, 1, 1), Some(719_163));
    assert_eq!(date_to_day_number(2000, 2, 29), Some(730_179));
}

#[test]
fn day_numbers_of_dates_that_do_not_exist() {
    assert_eq!(date_to_day_number(2021, 2, 29), None);
    assert_eq!(date_to_day_number(2021, 13, 1), None);
    assert_eq!(date_to_day_number(2021, 4, 31), None);
    assert_eq!(date_to_day_number(2021, 1, 0), None);
}

#[test]
fn age_threshold_in_days() {
    let b = date_to_day_number(2001, 5, 10).unwrap();
    let a18 = date_to_day_number(2019, 5, 10).unwrap();
    assert_eq!(age_to_delta(b, 18), Some(a18 - b));
    assert_eq!(age_to_delta(b, 18), Some(18 * 365 + 4));
    assert_eq!(age_to_delta(b, 0), Some(0));
}

#[test]
fn age_threshold_for_a_leap_day_birthday() {
    let b = date_to_day_number(2000, 2, 29).unwrap();
    assert_eq!(age_to_delta(b, 1), Some(date_to_day_number(2001, 3, 1).unwrap() - b));
    assert_eq!(age_to_delta(b, 4), Some(date_to_day_number(2004, 2, 29).unwrap() - b));
}

#[test]
fn age_threshold_beyond_the_calendar() {
    assert_eq!(age_to_delta(1, i32::MAX), None);
    assert_eq!(age_to_delta(i32::MAX, 1), None);
}

fn claim(today: i32, birthday: i32, relation: Relation, delta: i32) -> QrRequest {
    QrRequest {
        qr: PublicQr { today, contract: vec![0; 32], delta, relation },
        chain: PublicChain { photo_hash: vec![0; 32], prover_key: vec![0; 32] },
        private: Private { birthday, nonce: vec![0; 32] },
    }
}

#[test]
fn eighteenth_birthday_is_not_yet_older_than_eighteen() {
    let b = date_to_day_number(2001, 5, 10).unwrap();
    let delta = age_to_delta(b, 18).unwrap();
    let on_the_day = date_to_day_number(2019, 5, 10).unwrap();
    assert!(!claim(on_the_day, b, Relation::Older, delta).is_relation_valid());
    assert!(claim(on_the_day + 1, b, Relation::Older, delta).is_relation_valid());
    assert!(claim(on_the_day - 1, b, Relation::Younger, delta).is_relation_valid());
    assert!(!claim(on_the_day, b, Relation::Younger, delta).is_relation_valid());
}

#[test]
fn day_numbers_at_the_calendar_edges() {
    assert!(date_to_day_number(262142, 12, 31).is_some());
    assert!(date_to_day_number(-262143, 1, 1).is_some());
    assert_eq!(date_to_day_number(262143, 1, 1), None);
    assert_eq!(date_to_day_number(-262144, 12, 31), None);
}

#[test]
fn age_threshold_near_the_calendar_edges() {
    let last = date_to_day_number(262141, 6, 1).unwrap();
    assert_eq!(age_to_delta(last, 1), Some(date_to_day_number(262142, 6, 1).unwrap() - last));
    assert_eq!(age_to_delta(last, 2), None);
    let first = date_to_day_number(-262143, 6, 1).unwrap();
    assert_eq!(age_to_delta(first, -1), None);
}
