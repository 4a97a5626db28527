use daila::activites::{ActivityId, ActivityOption, ActivityType};
use daila::activity_selector::{ActivitySelector, ActivitySelectorValue};
use daila::popup::centered_frame;
use daila::rect::Rect;

fn option(name: &str, completed: bool) -> ActivityOption {
    ActivityOption::new(ActivityType::new(ActivityId(0), String::from(name)), completed)
}

#[test]
fn popup_frame_is_centered() {
    let area = Rect::new(0, 0, 100, 50);
    let frame = centered_frame(&area, 50, 70);
    assert_eq!((frame.x, frame.y, frame.width, frame.height), (25, 7, 50, 35));
    let offset = Rect::new(10, 5, 20, 10);
    let frame = centered_frame(&offset, 100, 100);
    assert_eq!((frame.x, frame.y, frame.width, frame.height), (10, 5, 20, 10));
}

#[test]
fn selector_panel_height_counts_partial_rows() {
    let opts: Vec<ActivityOption> = (0..7).map(|_| option("x", false)).collect();
    let selector = ActivitySelector::new().values(opts.iter().collect());
    assert_eq!(selector.height(), 17);
    let opts6: Vec<ActivityOption> = (0..6).map(|_| option("x", false)).collect();
    let selector = ActivitySelector::new().values(opts6.iter().collect());
    assert_eq!(selector.height(), 12);
    let selector: ActivitySelector<ActivityOption> = ActivitySelector::new();
    assert_eq!(selector.height(), 2);
}

#[test]
fn selector_title_is_centered_in_its_strip() {
    let selector: ActivitySelector<ActivityOption> = ActivitySelector::new();
    assert_eq!(selector.formatted_title(), "        Activity Selector         ");
    let selector = selector.title(String::from("Monday, 1 January, 2024"));
    let formatted = selector.formatted_title();
    assert_eq!(formatted.len(), 34);
    assert_eq!(formatted.trim(), "Monday, 1 January, 2024");
}

#[test]
fn option_exposes_name_and_completion() {
    let o = option("Run", true);
    assert_eq!(o.name(), "Run");
    assert!(o.completed());
    assert_eq!(o.activity_id(), ActivityId(0));
}
