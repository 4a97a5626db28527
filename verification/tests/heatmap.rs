use daila::activites::{Activity, ActivityId};
use daila::date::Date;
use daila::heatmap::{HeatMap, HeatMapDateRange};
use daila::rect::Rect;

fn d(y: i32, m: u8, day: u8) -> Date {
    Date::new(y, m, day).unwrap()
}

fn year_2024() -> HeatMap {
    HeatMap::new().date_range(d(2024, 1, 1), d(2024, 12, 31)).rows(7)
}

fn area() -> Rect {
    Rect::new(0, 0, 120, 10)
}

#[test]
fn first_day_is_at_the_origin_cell() {
    let map = year_2024();
    assert_eq!(map.date_to_position(d(2024, 1, 1), &area()), (0, 1));
}

#[test]
fn one_week_later_is_one_column_right() {
    let map = year_2024();
    assert_eq!(map.date_to_position(d(2024, 1, 8), &area()), (2, 1));
}

#[test]
fn days_fill_a_column_top_to_bottom() {
    let map = year_2024();
    assert_eq!(map.date_to_position(d(2024, 1, 2), &area()), (0, 2));
    assert_eq!(map.date_to_position(d(2024, 1, 7), &area()), (0, 7));
    assert_eq!(map.date_to_position(d(2024, 12, 31), &area()), (104, 2));
}

#[test]
fn positions_map_back_to_their_dates() {
    let map = year_2024();
    let a = area();
    for date in [
        d(2024, 1, 1),
        d(2024, 1, 7),
        d(2024, 2, 29),
        d(2024, 6, 15),
        d(2024, 12, 31),
    ] {
        let (x, y) = map.date_to_position(date, &a);
        assert_eq!(map.position_to_date(x, y, &a), date);
    }
}

#[test]
fn separator_sits_between_january_and_february() {
    let map = year_2024();
    let a = area();
    // Jan 26 + 7 days = Feb 2: a separator right of Jan 26's cell.
    assert_eq!(map.month_border_at(d(2024, 1, 26), &a), Some((7, 5, false)));
    // Jan 29 sits on the top row; its separator uses the top marker.
    assert_eq!(map.month_border_at(d(2024, 1, 29), &a), Some((9, 1, true)));
    // Jan 1 + 7 days is still January: no separator.
    assert_eq!(map.month_border_at(d(2024, 1, 1), &a), None);
    // Past the end of the range nothing is drawn.
    assert_eq!(map.month_border_at(d(2024, 12, 31), &a), None);
}

#[test]
fn month_labels_start_each_month_once() {
    let map = year_2024();
    let labels = map.month_label_columns(&area());
    assert_eq!(labels.len(), 12);
    assert_eq!(labels[0], (0, 1));
    // February first appears in the column starting Feb 5.
    assert_eq!(labels[1], (10, 2));
    let months: Vec<u8> = labels.iter().map(|l| l.1).collect();
    assert_eq!(months, vec![1, 2, 3, 4, 5, 6, 7, 8, 9, 10, 11, 12]);
}

#[test]
fn width_and_height_cover_the_grid() {
    let map = year_2024();
    assert_eq!(map.width(), 106);
    assert_eq!(map.height(), 8);
}

#[test]
fn heat_follows_the_marked_dates() {
    let map = year_2024().values(vec![Activity::new(ActivityId(0), d(2024, 3, 14))]);
    assert!(map.heat_at_date(d(2024, 3, 14)));
    assert!(!map.heat_at_date(d(2024, 3, 15)));
}

#[test]
fn builtin_ranges_are_ordered() {
    let year = HeatMapDateRange::current_year();
    assert_eq!((year.0.month, year.0.day), (1, 1));
    assert_eq!((year.1.month, year.1.day), (12, 31));
    assert_eq!(year.0.year, year.1.year);
    let rolling = HeatMapDateRange::one_year_ending_today();
    assert!(rolling.0.le(rolling.1));
    assert_eq!(rolling.1.days_diff(rolling.0), 365);
}
