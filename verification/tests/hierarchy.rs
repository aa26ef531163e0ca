use std::collections::{HashMap, HashSet};

use citybuilder_ecs::ecs::{Component, Entity};
use citybuilder_ecs::hierarchy::{HierarchyComponent, HierarchySystem};

#[test]
fn hierarchy_test_hierarchy_creation() {
    let hierarchy = HierarchyComponent::new();
    assert!(hierarchy.parent().is_none());
    assert!(hierarchy.children().is_empty());
    assert!(!hierarchy.has_children());
    assert!(!hierarchy.has_parent());
    assert_eq!(hierarchy.child_count(), 0);
}

#[test]
fn hierarchy_test_hierarchy_with_parent() {
    let parent_entity = 42;
    let hierarchy = HierarchyComponent::with_parent(parent_entity);
    assert_eq!(hierarchy.parent(), Some(parent_entity));
    assert!(hierarchy.has_parent());
    assert!(hierarchy.is_parent(parent_entity));
    assert!(!hierarchy.is_parent(999));
}

#[test]
fn test_parent_management() {
    let mut hierarchy = HierarchyComponent::new();
    let parent_entity = 100;

    hierarchy.set_parent(Some(parent_entity));
    assert_eq!(hierarchy.parent(), Some(parent_entity));
    assert!(hierarchy.has_parent());

    hierarchy.set_parent(None);
    assert!(hierarchy.parent().is_none());
    assert!(!hierarchy.has_parent());
}

#[test]
fn test_child_management() {
    let mut hierarchy = HierarchyComponent::new();
    let child1 = 10;
    let child2 = 20;
    let child3 = 30;

    hierarchy.add_child(child1);
    hierarchy.add_child(child2);
    hierarchy.add_child(child3);

    assert_eq!(hierarchy.child_count(), 3);
    assert!(hierarchy.has_children());
    assert!(hierarchy.is_child(child1));
    assert!(hierarchy.is_child(child2));
    assert!(hierarchy.is_child(child3));
    assert!(!hierarchy.is_child(999));

    let children = hierarchy.children();
    assert_eq!(children.len(), 3);
    assert!(children.contains(&child1));
    assert!(children.contains(&child2));
    assert!(children.contains(&child3));

    assert!(hierarchy.remove_child(child2));
    assert_eq!(hierarchy.child_count(), 2);
    assert!(!hierarchy.is_child(child2));
    assert!(hierarchy.is_child(child1));
    assert!(hierarchy.is_child(child3));

    assert!(!hierarchy.remove_child(999));
    assert_eq!(hierarchy.child_count(), 2);

    hierarchy.clear_children();
    assert_eq!(hierarchy.child_count(), 0);
    assert!(!hierarchy.has_children());
    assert!(hierarchy.children().is_empty());
}

#[test]
fn test_duplicate_child_prevention() {
    let mut hierarchy = HierarchyComponent::new();
    let child = 42;

    hierarchy.add_child(child);
    hierarchy.add_child(child);

    assert_eq!(hierarchy.child_count(), 1);
    assert!(hierarchy.is_child(child));
}

#[test]
fn test_validation() {
    let mut hierarchy = HierarchyComponent::new();
    hierarchy.set_parent(Some(100));
    hierarchy.add_child(200);
    hierarchy.add_child(300);
    assert!(hierarchy.validate());

    let mut invalid_hierarchy = HierarchyComponent::new();
    invalid_hierarchy.set_parent(Some(100));
    invalid_hierarchy.add_child(100);
    assert!(!invalid_hierarchy.validate());

    let no_parent_hierarchy = HierarchyComponent::new();
    assert!(no_parent_hierarchy.validate());
}

#[test]
fn hierarchy_component_test_hierarchy_creation() {
    let hierarchy = HierarchyComponent::new();
    assert!(hierarchy.get_parent().is_none());
    assert!(hierarchy.get_children().is_empty());
    assert!(!hierarchy.has_parent());
    assert!(!hierarchy.has_children());
    assert_eq!(hierarchy.child_count(), 0);
}

#[test]
fn hierarchy_component_test_hierarchy_with_parent() {
    let parent_id = 42;
    let hierarchy = HierarchyComponent::with_parent(parent_id);
    assert_eq!(hierarchy.get_parent(), Some(parent_id));
    assert!(hierarchy.has_parent());
    assert!(!hierarchy.has_children());
}

#[test]
fn test_add_remove_children() {
    let mut hierarchy = HierarchyComponent::new();
    let child1 = 10;
    let child2 = 20;

    hierarchy.add_child(child1);
    hierarchy.add_child(child2);

    assert!(hierarchy.has_children());
    assert_eq!(hierarchy.child_count(), 2);
    assert!(hierarchy.is_child(child1));
    assert!(hierarchy.is_child(child2));
    assert!(!hierarchy.is_child(99));

    assert!(hierarchy.remove_child(child1));
    assert!(!hierarchy.is_child(child1));
    assert!(hierarchy.is_child(child2));
    assert_eq!(hierarchy.child_count(), 1);

    assert!(!hierarchy.remove_child(99));
    assert_eq!(hierarchy.child_count(), 1);

    hierarchy.clear_children();
    assert!(!hierarchy.has_children());
    assert_eq!(hierarchy.child_count(), 0);
}

#[test]
fn test_prevent_duplicate_children() {
    let mut hierarchy = HierarchyComponent::new();
    let child = 10;

    hierarchy.add_child(child);
    hierarchy.add_child(child);

    assert_eq!(hierarchy.child_count(), 1);
    assert!(hierarchy.is_child(child));
}

#[test]
fn test_validation_prevents_self_referencing() {
    let mut hierarchy = HierarchyComponent::new();
    let entity_id = 5;

    hierarchy.set_parent(Some(entity_id));
    hierarchy.add_child(entity_id);

    assert!(!hierarchy.validate());
}

#[test]
fn test_validation_valid_hierarchy() {
    let mut hierarchy = HierarchyComponent::new();

    hierarchy.set_parent(Some(1));
    hierarchy.add_child(2);
    hierarchy.add_child(3);

    assert!(hierarchy.validate());
}

#[test]
fn hierarchy_system_test_circular_dependency_detection() {
    let mut parent_child_map: HashMap<Entity, Vec<Entity>> = HashMap::new();
    parent_child_map.insert(1, vec![2]);
    parent_child_map.insert(2, vec![3]);
    parent_child_map.insert(3, vec![1]);

    let mut visited = HashSet::new();
    assert!(HierarchySystem::has_circular_dependency(1, &parent_child_map, &mut visited).unwrap());
}

#[test]
fn test_no_circular_dependency() {
    let mut parent_child_map: HashMap<Entity, Vec<Entity>> = HashMap::new();
    parent_child_map.insert(1, vec![2, 3]);
    parent_child_map.insert(2, vec![4]);
    parent_child_map.insert(3, vec![5]);

    let mut visited = HashSet::new();
    assert!(!HierarchySystem::has_circular_dependency(1, &parent_child_map, &mut visited).unwrap());
}

#[test]
fn test_parent_relationship_management() {
    let mut child_hierarchy = HierarchyComponent::new();
    let mut parent_hierarchy = HierarchyComponent::new();

    assert!(HierarchySystem::set_parent_relationship(
        &mut child_hierarchy,
        Some(&mut parent_hierarchy),
        2,
        Some(1),
        None
    )
    .is_ok());

    assert_eq!(child_hierarchy.parent(), Some(1));
    assert!(parent_hierarchy.is_child(2));
}

#[test]
fn test_remove_parent_relationship() {
    let mut child_hierarchy = HierarchyComponent::with_parent(1);
    let mut parent_hierarchy = HierarchyComponent::new();
    parent_hierarchy.add_child(2);

    assert!(HierarchySystem::set_parent_relationship(
        &mut child_hierarchy,
        Some(&mut parent_hierarchy),
        2,
        None,
        Some(1)
    )
    .is_ok());

    assert_eq!(child_hierarchy.parent(), None);
    assert!(!parent_hierarchy.is_child(2));
}

#[test]
fn test_hierarchy_component_functionality() {
    let mut hierarchy = HierarchyComponent::new();

    assert!(!hierarchy.has_parent());
    assert!(!hierarchy.has_children());
    assert_eq!(hierarchy.child_count(), 0);

    hierarchy.add_child(10);
    hierarchy.add_child(20);
    hierarchy.add_child(30);

    assert!(hierarchy.has_children());
    assert_eq!(hierarchy.child_count(), 3);
    assert!(hierarchy.is_child(10));
    assert!(hierarchy.is_child(20));
    assert!(hierarchy.is_child(30));
    assert!(!hierarchy.is_child(999));

    hierarchy.set_parent(Some(5));
    assert!(hierarchy.has_parent());
    assert_eq!(hierarchy.parent(), Some(5));
    assert!(hierarchy.is_parent(5));

    assert!(hierarchy.remove_child(20));
    assert_eq!(hierarchy.child_count(), 2);
    assert!(!hierarchy.is_child(20));

    hierarchy.clear_children();
    assert!(!hierarchy.has_children());
    assert_eq!(hierarchy.child_count(), 0);
}

#[test]
fn test_hierarchy_validation() {
    let mut hierarchy = HierarchyComponent::new();
    hierarchy.set_parent(Some(100));
    hierarchy.add_child(200);
    hierarchy.add_child(300);
    assert!(hierarchy.validate());

    let mut invalid_hierarchy = HierarchyComponent::new();
    invalid_hierarchy.set_parent(Some(100));
    invalid_hierarchy.add_child(100);
    assert!(!invalid_hierarchy.validate());
}

#[test]
fn test_hierarchy_component_cloning() {
    let mut original = HierarchyComponent::new();
    original.set_parent(Some(42));
    original.add_child(1);
    original.add_child(2);
    original.add_child(3);

    let cloned = original.clone();

    assert_eq!(original.parent(), cloned.parent());
    assert_eq!(original.children(), cloned.children());
    assert_eq!(original.child_count(), cloned.child_count());
}

#[test]
fn removing_a_child_keeps_the_order_of_the_others() {
    let mut hierarchy = HierarchyComponent::new();
    hierarchy.add_child(1);
    hierarchy.add_child(2);
    hierarchy.add_child(3);
    hierarchy.add_child(2);
    assert_eq!(hierarchy.children(), &[1, 2, 3]);
    assert!(hierarchy.remove_child(2));
    assert_eq!(hierarchy.children(), &[1, 3]);
    hierarchy.add_child(2);
    assert_eq!(hierarchy.children(), &[1, 3, 2]);
}

#[test]
fn remove_after_add_gives_back_the_children() {
    let mut hierarchy = HierarchyComponent::with_parent(9);
    hierarchy.add_child(4);
    hierarchy.add_child(5);
    hierarchy.add_child(6);
    assert!(hierarchy.remove_child(6));
    assert_eq!(hierarchy.children(), &[4, 5]);
    assert_eq!(hierarchy.parent(), Some(9));
}

#[test]
fn cycle_detection_reports_a_child_already_on_the_path() {
    let mut parent_child_map: HashMap<Entity, Vec<Entity>> = HashMap::new();
    parent_child_map.insert(1, vec![1]);
    let mut visited = HashSet::new();
    assert!(HierarchySystem::has_circular_dependency(1, &parent_child_map, &mut visited).unwrap());

    let mut visited = HashSet::new();
    visited.insert(7);
    assert!(HierarchySystem::has_circular_dependency(7, &HashMap::new(), &mut visited).unwrap());
}

#[test]
fn no_cycle_leaves_the_path_as_it_was() {
    let mut parent_child_map: HashMap<Entity, Vec<Entity>> = HashMap::new();
    parent_child_map.insert(1, vec![2, 3]);
    parent_child_map.insert(2, vec![3]);
    let mut visited = HashSet::new();
    visited.insert(10);
    assert!(!HierarchySystem::has_circular_dependency(1, &parent_child_map, &mut visited).unwrap());
    assert_eq!(visited.len(), 1);
    assert!(visited.contains(&10));
}

#[test]
fn default_hierarchy_is_empty() {
    let hierarchy = HierarchyComponent::default();
    assert!(hierarchy.parent().is_none());
    assert_eq!(hierarchy.child_count(), 0);
}

#[test]
fn hierarchy_test_component_trait() {
    let hierarchy = HierarchyComponent::new();

    let as_any: &dyn std::any::Any = &hierarchy;
    assert!(as_any.downcast_ref::<HierarchyComponent>().is_some());

    let cloned: Box<dyn std::any::Any> = Box::new(hierarchy.clone());
    let downcast = cloned.downcast_ref::<HierarchyComponent>().unwrap();
    assert_eq!(downcast.parent(), hierarchy.parent());
    assert_eq!(downcast.children(), hierarchy.children());
}

#[test]
fn hierarchy_component_test_component_trait() {
    let hierarchy = HierarchyComponent::new();

    assert!(hierarchy.validate());

    let cloned: Box<dyn std::any::Any> = Box::new(hierarchy.clone());
    let downcast = cloned.downcast_ref::<HierarchyComponent>().unwrap();
    assert_eq!(downcast.get_parent(), hierarchy.get_parent());
    assert_eq!(downcast.get_children(), hierarchy.get_children());
}
