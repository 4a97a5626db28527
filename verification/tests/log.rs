use daila::activites::{ActivitiesStore, Activity, ActivityId, ActivityType};
use daila::date::Date;

fn d(y: i32, m: u8, day: u8) -> Date {
    Date::new(y, m, day).unwrap()
}

#[test]
fn toggle_adds_then_removes() {
    let run = ActivityType::new(ActivityId(0), String::from("Run"));
    let mut log = ActivitiesStore::empty();
    let day = d(2024, 6, 1);
    assert!(!log.activity_completed(day, &run));
    log.toggle(ActivityId(0), day);
    assert_eq!(log.activities().len(), 1);
    assert!(log.activity_completed(day, &run));
    log.toggle(ActivityId(0), day);
    assert_eq!(log.activities().len(), 0);
    assert!(!log.activity_completed(day, &run));
}

#[test]
fn completed_on_distinguishes_types_and_dates() {
    let mut log = ActivitiesStore::empty();
    log.add_activity(Activity::new(ActivityId(1), d(2024, 3, 14)));
    assert!(log.completed_on(d(2024, 3, 14), ActivityId(1)));
    assert!(!log.completed_on(d(2024, 3, 14), ActivityId(0)));
    assert!(!log.completed_on(d(2024, 3, 15), ActivityId(1)));
}

#[test]
fn remove_takes_all_matching_records_of_the_day() {
    let mut log = ActivitiesStore::empty();
    let a = Activity::new(ActivityId(2), d(2024, 1, 1));
    log.add_activity(a);
    log.add_activity(a);
    log.add_activity(Activity::new(ActivityId(3), d(2024, 1, 1)));
    assert_eq!(log.activities().len(), 3);
    log.remove_activity(a);
    assert_eq!(log.activities().len(), 1);
    assert!(!log.completed_on(d(2024, 1, 1), ActivityId(2)));
    assert!(log.completed_on(d(2024, 1, 1), ActivityId(3)));
}

#[test]
fn remove_on_empty_day_is_silent() {
    let mut log = ActivitiesStore::empty();
    log.remove_activity(Activity::new(ActivityId(0), d(2024, 1, 1)));
    assert_eq!(log.activities().len(), 0);
}

#[test]
fn activities_are_listed_in_date_order() {
    let mut log = ActivitiesStore::empty();
    log.add_activity(Activity::new(ActivityId(0), d(2024, 5, 2)));
    log.add_activity(Activity::new(ActivityId(0), d(2024, 5, 1)));
    log.add_activity(Activity::new(ActivityId(1), d(2024, 5, 2)));
    let all = log.activities();
    assert_eq!(all.len(), 3);
    assert_eq!(all[0].date, d(2024, 5, 1));
    assert_eq!(all[1].date, d(2024, 5, 2));
    assert_eq!(all[2].date, d(2024, 5, 2));
}

#[test]
fn activities_with_type_filters() {
    let run = ActivityType::new(ActivityId(0), String::from("Run"));
    let mut log = ActivitiesStore::empty();
    log.add_activity(Activity::new(ActivityId(0), d(2024, 5, 1)));
    log.add_activity(Activity::new(ActivityId(1), d(2024, 5, 1)));
    log.add_activity(Activity::new(ActivityId(0), d(2024, 5, 3)));
    let mine = log.activities_with_type(&run);
    assert_eq!(mine.len(), 2);
    assert!(mine.iter().all(|a| a.activity_id == ActivityId(0)));
}

#[test]
fn activities_on_date_returns_the_day() {
    let mut log = ActivitiesStore::empty();
    log.add_activity(Activity::new(ActivityId(0), d(2024, 5, 1)));
    log.add_activity(Activity::new(ActivityId(1), d(2024, 5, 1)));
    assert_eq!(log.activities_on_date(d(2024, 5, 1)).len(), 2);
    assert_eq!(log.activities_on_date(d(2024, 5, 2)).len(), 0);
}

#[test]
fn day_records_round_trip() {
    let mut log = ActivitiesStore::empty();
    log.add_activity(Activity::new(ActivityId(0), d(2024, 3, 15)));
    log.add_activity(Activity::new(ActivityId(2), d(2024, 3, 15)));
    log.add_activity(Activity::new(ActivityId(0), d(2024, 3, 14)));
    let flat: Vec<Activity> =
        log.day_records().into_iter().flat_map(|(_, records)| records).collect();
    let rebuilt = ActivitiesStore::from_records(&flat);
    assert_eq!(rebuilt.activities(), log.activities());
}

#[test]
fn duplicate_records_survive_a_round_trip() {
    let a = Activity::new(ActivityId(0), d(2024, 3, 15));
    let records = vec![a, a, Activity::new(ActivityId(1), d(2024, 3, 15))];
    let log = ActivitiesStore::from_records(&records);
    assert_eq!(log.activities().len(), 3);
    let flat: Vec<Activity> =
        log.day_records().into_iter().flat_map(|(_, records)| records).collect();
    let again = ActivitiesStore::from_records(&flat);
    assert_eq!(again.activities(), log.activities());
}
