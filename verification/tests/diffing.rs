use std::collections::HashMap;
use citybuilder_ecs::diffing::{diff_components, ron_text_or_default, DebugTracker, Diffable, RonValue};
use citybuilder_ecs::ecs::{Component, World};
use citybuilder_ecs::examples::{Health, HEALTH_COMPONENT};

#[test]
fn test_vec_diffing() {
    let vec1 = vec![1i32, 2i32, 3i32];
    let vec2 = vec![1i32, 5i32, 3i32];
    let diff = vec1.diff(&vec2);
    assert!(diff.is_some());
    let diff = diff.unwrap();
    assert_eq!(diff.len(), 1);
    assert_eq!(diff[0].property_name, "[1].value");
    assert_eq!(diff[0].new_value, "5");

    let vec3 = vec![1i32, 2i32];
    let diff = vec1.diff(&vec3);
    assert!(diff.is_some());
    let diff = diff.unwrap();
    assert_eq!(diff.len(), 1);
    assert_eq!(diff[0].property_name, "value");
    assert!(diff[0].new_value.contains("Vec with 2 elements"));
}

#[test]
fn test_debug_tracker_basic() {
    let mut tracker: DebugTracker<Health> = DebugTracker::new();
    assert!(!tracker.enabled);

    tracker.enable();
    assert!(tracker.enabled);

    tracker.disable();
    assert!(!tracker.enabled);

    tracker.enable();
    tracker.next_frame();
    assert_eq!(tracker.frame_number, 1);
}

#[test]
fn test_world_debug_integration() {
    let mut world: World<Health> = World::new();

    world.enable_debug_tracking();
    world.next_frame();

    let history = world.get_debug_history();
    assert!(history.is_empty());

    world.clear_debug_history();
    world.disable_debug_tracking();
}

#[test]
fn plain_values_diff_as_single_values() {
    let a = 5i32;
    let b = 10i32;
    let diff = a.diff(&b).unwrap();
    assert_eq!(diff.len(), 1);
    assert_eq!(diff[0].property_name, "value");
    assert_eq!(diff[0].new_value, "10");
    assert!(a.diff(&a).is_none());

    let diff = (-3i32).diff(&(-40i32)).unwrap();
    assert_eq!(diff[0].new_value, "-40");

    let diff = 7u64.diff(&18446744073709551615u64).unwrap();
    assert_eq!(diff[0].new_value, "18446744073709551615");

    let diff = true.diff(&false).unwrap();
    assert_eq!(diff[0].new_value, "false");
    assert!(false.diff(&false).is_none());

    let a = "hello".to_string();
    let b = "world".to_string();
    let diff = a.diff(&b).unwrap();
    assert_eq!(diff[0].property_name, "value");
    assert_eq!(diff[0].new_value, "\"world\"");
    assert!(a.diff(&a.clone()).is_none());
}

#[test]
fn ron_text_of_plain_values() {
    assert_eq!(ron_text_or_default(&RonValue::Int(-12)), "-12");
    assert_eq!(ron_text_or_default(&RonValue::UInt(0)), "0");
    assert_eq!(ron_text_or_default(&RonValue::Bool(true)), "true");
    assert_eq!(ron_text_or_default(&RonValue::Text("a\"b")), "\"a\\\"b\"");
}

#[test]
fn type_names() {
    assert_eq!(i32::name_of_type(), "i32");
    assert_eq!(u64::name_of_type(), "u64");
    assert_eq!(bool::name_of_type(), "bool");
    assert_eq!(String::name_of_type(), "String");
    assert_eq!(Vec::<i32>::name_of_type(), "Vec");
    assert_eq!(Health::name_of_type(), "Health");
}

#[test]
fn nested_list_changes_are_named_by_index() {
    let a = vec![vec![1i32, 2], vec![3]];
    let b = vec![vec![1i32, 4], vec![3, 5]];
    let diff = a.diff(&b).unwrap();
    assert_eq!(diff.len(), 2);
    assert_eq!(diff[0].property_name, "[0].[1].value");
    assert_eq!(diff[0].new_value, "4");
    assert_eq!(diff[1].property_name, "[1].value");
    assert_eq!(diff[1].new_value, "Vec with 2 elements");
    assert!(a.diff(&a.clone()).is_none());
}

#[test]
fn health_diff_names_the_changed_field() {
    let health1 = Health::new(100);
    let mut health2 = Health::new(100);
    health2.damage(30);
    let diff = health1.diff(&health2).unwrap();
    assert_eq!(diff.len(), 1);
    assert_eq!(diff[0].property_name, "current");
    assert_eq!(diff[0].new_value, "70");
    assert!(health1.diff(&health1).is_none());

    let mut health3 = Health::new(50);
    health3.damage(10);
    let diff = health1.diff(&health3).unwrap();
    assert_eq!(diff.len(), 2);
    assert_eq!(diff[0].property_name, "current");
    assert_eq!(diff[0].new_value, "40");
    assert_eq!(diff[1].property_name, "max");
    assert_eq!(diff[1].new_value, "50");
}

#[test]
fn component_diff_carries_the_type_name() {
    let before = Health::new(10);
    let mut after = before;
    after.damage(4);
    let d = diff_components(&before, &after).unwrap();
    assert_eq!(d.entity_id, 0);
    assert_eq!(d.component_type, "Health");
    assert_eq!(d.changes.len(), 1);
    assert!(diff_components(&before, &before).is_none());
}

#[test]
fn tracker_records_what_a_system_changed() {
    let mut world: World<Health> = World::new();
    let e0 = world.create_entity();
    let e1 = world.create_entity();
    world.add_component(e0, HEALTH_COMPONENT, Health::new(100));
    world.add_component(e1, HEALTH_COMPONENT, Health::new(50));

    let mut tracker: DebugTracker<Health> = DebugTracker::new();
    tracker.enable();
    tracker.next_frame();
    tracker.next_frame();
    tracker.snapshot_components(&world, &[e0, e1], &[HEALTH_COMPONENT]);
    world.get_component_mut(e0, HEALTH_COMPONENT).unwrap().damage(30);
    tracker.record_diffs(&world, "combat", &[e0, e1], &[HEALTH_COMPONENT]);

    assert_eq!(tracker.diff_history.len(), 1);
    let record = &tracker.diff_history[0];
    assert_eq!(record.frame_number, 2);
    assert_eq!(record.system_name, "combat");
    assert_eq!(record.component_diffs.len(), 1);
    assert_eq!(record.component_diffs[0].entity_id, e0);
    assert_eq!(
        tracker.get_diff_history_formatted(),
        "Frame 2: System 'combat'\n  Entity 0: Health changed\n    current -> 70\n\n"
    );

    tracker.snapshot_components(&world, &[e0, e1], &[HEALTH_COMPONENT]);
    tracker.record_diffs(&world, "idle", &[e0, e1], &[HEALTH_COMPONENT]);
    assert_eq!(tracker.diff_history.len(), 1);

    tracker.clear_history();
    assert!(tracker.diff_history.is_empty());
    assert_eq!(tracker.get_diff_history_formatted(), "");
}

#[test]
fn disabled_tracker_records_nothing() {
    let mut world: World<Health> = World::new();
    let e0 = world.create_entity();
    world.add_component(e0, HEALTH_COMPONENT, Health::new(100));

    let mut tracker: DebugTracker<Health> = DebugTracker::new();
    tracker.snapshot_components(&world, &[e0], &[HEALTH_COMPONENT]);
    world.get_component_mut(e0, HEALTH_COMPONENT).unwrap().damage(1);
    tracker.record_diffs(&world, "combat", &[e0], &[HEALTH_COMPONENT]);
    assert!(tracker.diff_history.is_empty());
}

#[test]
fn health_rules() {
    let mut health = Health::new(100);
    assert!(health.is_alive());
    assert!(health.validate());
    assert_eq!(Health::component_type_id(), HEALTH_COMPONENT);

    health.damage(30);
    assert_eq!(health.current, 70);

    health.heal(20);
    assert_eq!(health.current, 90);

    health.heal(50);
    assert_eq!(health.current, 100);

    health.damage(200);
    assert_eq!(health.current, 0);
    assert!(!health.is_alive());
    assert!(health.validate());

    let broken = Health { current: 5, max: 3 };
    assert!(!broken.validate());
}

#[test]
fn map_diff_lists_changed_added_and_removed_entries() {
    let mut a: HashMap<u64, i32> = HashMap::new();
    a.insert(1, 10);
    a.insert(2, 20);
    a.insert(3, 30);
    let mut b = a.clone();
    b.insert(2, 25);
    b.remove(&3);
    b.insert(4, 40);
    let diff = a.diff(&b).unwrap();
    let pairs: Vec<(String, String)> =
        diff.iter().map(|d| (d.property_name.clone(), d.new_value.clone())).collect();
    assert_eq!(
        pairs,
        vec![
            ("[2].value".to_string(), "25".to_string()),
            ("[4]".to_string(), "added".to_string()),
            ("[3]".to_string(), "removed".to_string()),
        ]
    );
    assert!(a.diff(&a.clone()).is_none());
    assert_eq!(HashMap::<u64, i32>::name_of_type(), "HashMap");
}

fn change(name: &str, value: &str) -> citybuilder_ecs::diffing::PropertyDiff {
    citybuilder_ecs::diffing::PropertyDiff { property_name: name.to_string(), new_value: value.to_string() }
}

#[test]
fn applying_a_diff_gives_the_new_value() {
    let mut a = -7i32;
    let b = 12345i32;
    let d = a.diff(&b).unwrap();
    assert!(a.apply_diff(&d));
    assert_eq!(a, b);

    let mut c = 1u64;
    let d = c.diff(&u64::MAX).unwrap();
    assert!(c.apply_diff(&d));
    assert_eq!(c, u64::MAX);

    let mut flag = true;
    let d = flag.diff(&false).unwrap();
    assert!(flag.apply_diff(&d));
    assert!(!flag);

    let mut s = "old".to_string();
    let d = s.diff(&"new \"quoted\"".to_string()).unwrap();
    assert!(s.apply_diff(&d));
    assert_eq!(s, "new \"quoted\"");

    let mut h = Health::new(100);
    let mut target = Health::new(80);
    target.damage(5);
    let d = h.diff(&target).unwrap();
    assert!(h.apply_diff(&d));
    assert_eq!((h.current, h.max), (75, 80));
}

#[test]
fn unusable_changes_are_not_applied() {
    let mut a = 3i32;
    assert!(!a.apply_diff(&[change("other", "5"), change("value", "five")]));
    assert_eq!(a, 3);
    assert!(a.apply_diff(&[change("value", "x"), change("value", "9")]));
    assert_eq!(a, 9);

    let mut h = Health::new(10);
    assert!(h.apply_diff(&[change("current.value", "4"), change("maxi", "1")]));
    assert_eq!((h.current, h.max), (4, 10));
    assert!(!h.apply_diff(&[change("max.other", "1"), change("max", "nine")]));
    assert_eq!((h.current, h.max), (4, 10));

    let mut list = vec![1i32, 2];
    assert!(!list.apply_diff(&[change("[0].value", "5")]));
    assert_eq!(list, vec![1, 2]);
    assert!(list.apply_diff(&[change("value", "Vec with 3 elements")]));
    assert!(list.is_empty());

    let mut map: HashMap<u64, i32> = HashMap::new();
    map.insert(1, 1);
    assert!(!map.apply_diff(&[change("[1].value", "2")]));
    assert_eq!(map.get(&1), Some(&1));
}

#[test]
fn test_basic_diffable_implementations() {
    let a = 5i32;
    let b = 10i32;
    let diff = a.diff(&b);
    assert!(diff.is_some());
    let diff = diff.unwrap();
    assert_eq!(diff.len(), 1);
    assert_eq!(diff[0].property_name, "value");
    assert_eq!(diff[0].new_value, "10");

    let diff = a.diff(&a);
    assert!(diff.is_none());

    let a = "hello".to_string();
    let b = "world".to_string();
    let diff = a.diff(&b);
    assert!(diff.is_some());
    let diff = diff.unwrap();
    assert_eq!(diff[0].property_name, "value");
    assert_eq!(diff[0].new_value, "\"world\"");
}

#[test]
fn reported_diffs_are_never_empty() {
    let a: Vec<i32> = vec![1, 2, 3];
    assert!(a.diff(&a.clone()).is_none());
    let b: Vec<i32> = vec![1, 5, 3];
    assert_eq!(a.diff(&b).unwrap().len(), 1);
    let mut m: HashMap<u64, i32> = HashMap::new();
    m.insert(1, 1);
    assert!(m.diff(&m.clone()).is_none());
    let mut n = m.clone();
    n.insert(1, 2);
    assert_eq!(n.diff(&m).unwrap().len(), 1);
}
