use daila::date::{today_date, Date};

fn d(y: i32, m: u8, day: u8) -> Date {
    Date::new(y, m, day).unwrap()
}

#[test]
fn rejects_invalid_dates() {
    assert!(Date::new(2024, 2, 30).is_none());
    assert!(Date::new(2023, 2, 29).is_none());
    assert!(Date::new(2024, 13, 1).is_none());
    assert!(Date::new(2024, 0, 1).is_none());
    assert!(Date::new(2024, 1, 0).is_none());
    assert!(Date::new(-1, 1, 1).is_none());
    assert!(Date::new(10000, 1, 1).is_none());
}

#[test]
fn accepts_leap_day_in_leap_years() {
    assert!(Date::new(2024, 2, 29).is_some());
    assert!(Date::new(2000, 2, 29).is_some());
    assert!(Date::new(1900, 2, 29).is_none());
}

#[test]
fn succ_rolls_over_months_and_years() {
    assert_eq!(d(2024, 1, 31).succ(), Some(d(2024, 2, 1)));
    assert_eq!(d(2024, 2, 28).succ(), Some(d(2024, 2, 29)));
    assert_eq!(d(2023, 2, 28).succ(), Some(d(2023, 3, 1)));
    assert_eq!(d(2024, 12, 31).succ(), Some(d(2025, 1, 1)));
    assert_eq!(d(9999, 12, 31).succ(), None);
}

#[test]
fn pred_rolls_back_months_and_years() {
    assert_eq!(d(2024, 3, 1).pred(), Some(d(2024, 2, 29)));
    assert_eq!(d(2024, 1, 1).pred(), Some(d(2023, 12, 31)));
    assert_eq!(d(0, 1, 1).pred(), None);
}

#[test]
fn day_numbers_count_single_days() {
    let a = d(2024, 2, 28);
    let b = d(2024, 3, 1);
    assert_eq!(b.day_number() - a.day_number(), 2);
    assert_eq!(d(2024, 1, 1).day_number() + 365, d(2024, 12, 31).day_number());
    assert_eq!(d(2023, 1, 1).day_number() + 364, d(2023, 12, 31).day_number());
}

#[test]
fn add_and_diff_agree() {
    let start = d(2024, 1, 1);
    let later = start.add_days(68).unwrap();
    assert_eq!(later, d(2024, 3, 9));
    assert_eq!(later.days_diff(start), 68);
    assert_eq!(start.days_diff(later), -68);
    assert_eq!(start.add_days(0), Some(start));
    assert_eq!(later.sub_days(68), Some(start));
}

#[test]
fn add_days_fails_past_the_range() {
    assert_eq!(d(9999, 12, 31).add_days(1), None);
    assert_eq!(d(0, 1, 1).sub_days(1), None);
}

#[test]
fn order_is_lexicographic_on_the_triple() {
    assert!(d(2023, 12, 31).lt(d(2024, 1, 1)));
    assert!(d(2024, 1, 31).lt(d(2024, 2, 1)));
    assert!(d(2024, 2, 1).le(d(2024, 2, 1)));
    assert!(!d(2024, 2, 2).le(d(2024, 2, 1)));
}

#[test]
fn today_is_in_the_representable_range() {
    let t = today_date();
    assert!(t.year >= 0 && t.year <= 9999);
    assert!(t.month >= 1 && t.month <= 12);
    assert!(t.day >= 1 && t.day <= 31);
}
