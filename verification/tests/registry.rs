use daila::activites::{ActivityId, ActivityType, ActivityTypesStore};

#[test]
fn create_allocates_smallest_unused_ids() {
    let mut store = ActivityTypesStore::empty();
    let id0 = store.create_new_activity(String::from("Meditate"));
    assert_eq!(id0, ActivityId(0));
    let id1 = store.create_new_activity(String::from("Run"));
    assert_eq!(id1, ActivityId(1));
    store.delete_activity_type(ActivityId(0));
    let id2 = store.create_new_activity(String::from("Read"));
    assert_eq!(id2, ActivityId(0));
    let types = store.activity_types();
    let ids: Vec<u32> = types.iter().map(|t| t.id.0).collect();
    let names: Vec<&str> = types.iter().map(|t| t.name.as_str()).collect();
    assert_eq!(ids, vec![0, 1]);
    assert_eq!(names, vec!["Read", "Run"]);
}

#[test]
fn list_is_ascending_by_id() {
    let mut store = ActivityTypesStore::empty();
    store.create_new_activity(String::from("a"));
    store.create_new_activity(String::from("b"));
    store.create_new_activity(String::from("c"));
    store.delete_activity_type(ActivityId(1));
    store.create_new_activity(String::from("d"));
    let ids: Vec<u32> = store.activity_types().iter().map(|t| t.id.0).collect();
    assert_eq!(ids, vec![0, 1, 2]);
}

#[test]
fn rename_replaces_the_name() {
    let mut store = ActivityTypesStore::empty();
    let id = store.create_new_activity(String::from("Jog"));
    store.update_activity(id, String::from("Sprint"));
    let t = store.activity_type(id).unwrap();
    assert_eq!(t.name, "Sprint");
    assert_eq!(store.len(), 1);
}

#[test]
fn rename_of_absent_id_is_silent() {
    let mut store = ActivityTypesStore::empty();
    store.create_new_activity(String::from("Jog"));
    store.update_activity(ActivityId(9), String::from("Sprint"));
    assert_eq!(store.len(), 1);
    assert_eq!(store.activity_type(ActivityId(0)).unwrap().name, "Jog");
    assert!(store.activity_type(ActivityId(9)).is_none());
}

#[test]
fn delete_removes_the_entry() {
    let mut store = ActivityTypesStore::empty();
    let id = store.create_new_activity(String::from("Jog"));
    store.delete_activity_type(id);
    assert!(store.activity_type(id).is_none());
    assert_eq!(store.len(), 0);
}

#[test]
fn entries_round_trip() {
    let mut store = ActivityTypesStore::empty();
    store.create_new_activity(String::from("Meditate"));
    store.create_new_activity(String::from("Run"));
    let entries: Vec<(u32, ActivityType)> =
        store.activity_types().into_iter().map(|t| (t.id.0, t)).collect();
    let rebuilt = ActivityTypesStore::from_entries(&entries).unwrap();
    let a: Vec<(u32, String)> =
        store.activity_types().into_iter().map(|t| (t.id.0, t.name)).collect();
    let b: Vec<(u32, String)> =
        rebuilt.activity_types().into_iter().map(|t| (t.id.0, t.name)).collect();
    assert_eq!(a, b);
}

#[test]
fn entries_with_bad_key_are_rejected() {
    let entries = vec![(3u32, ActivityType::new(ActivityId(0), String::from("x")))];
    assert!(ActivityTypesStore::from_entries(&entries).is_none());
}

#[test]
fn entries_with_duplicate_id_are_rejected() {
    let entries = vec![
        (0u32, ActivityType::new(ActivityId(0), String::from("x"))),
        (0u32, ActivityType::new(ActivityId(0), String::from("y"))),
    ];
    assert!(ActivityTypesStore::from_entries(&entries).is_none());
}
