use vstd::prelude::*;
use crate::ecs::{Component, ComponentTypeId, Entity};
use std::collections::{HashMap, HashSet};

verus! {

/// Keeps the parent and the children of one entity.
///
/// A child is never listed twice.
#[derive(Debug)]
pub struct HierarchyComponent {
    parent: Option<Entity>,
    children: Vec<Entity>,
}

impl HierarchyComponent {
    /// The parent recorded in this component.
    pub closed spec fn spec_parent(&self) -> Option<Entity> {
        self.parent
    }

    /// The children recorded in this component, in insertion order.
    pub closed spec fn spec_children(&self) -> Seq<Entity> {
        self.children@
    }

    #[verifier::type_invariant]
    spec fn children_are_distinct(&self) -> bool {
        self.children@.no_duplicates()
    }

    /// A component with no parent and no children.
    pub fn new() -> (h: Self)
        ensures
            h.spec_parent() is None,
            h.spec_children() == Seq::<Entity>::empty(),
    {
        HierarchyComponent { parent: None, children: Vec::new() }
    }

    /// A component whose parent is `parent` and that has no children.
    pub fn with_parent(parent: Entity) -> (h: Self)
        ensures
            h.spec_parent() == Some(parent),
            h.spec_children() == Seq::<Entity>::empty(),
    {
        HierarchyComponent { parent: Some(parent), children: Vec::new() }
    }

    /// The parent entity, if any.
    pub fn parent(&self) -> (p: Option<Entity>)
        ensures
            p == self.spec_parent(),
    {
        self.parent
    }

    /// The parent entity, if any (same as `parent`).
    pub fn get_parent(&self) -> (p: Option<Entity>)
        ensures
            p == self.spec_parent(),
    {
        self.parent
    }

    /// Replaces the parent; the children stay as they are.
    pub fn set_parent(&mut self, parent: Option<Entity>)
        ensures
            final(self).spec_parent() == parent,
            final(self).spec_children() == old(self).spec_children(),
    {
        proof {
            use_type_invariant(&*self);
        }
        self.parent = parent;
    }

    /// All children, in the order they were added.
    pub fn children(&self) -> (c: &[Entity])
        ensures
            c@ == self.spec_children(),
            c@.no_duplicates(),
    {
        proof {
            use_type_invariant(self);
        }
        self.children.as_slice()
    }

    /// All children, in the order they were added (same as `children`).
    pub fn get_children(&self) -> (c: &[Entity])
        ensures
            c@ == self.spec_children(),
            c@.no_duplicates(),
    {
        proof {
            use_type_invariant(self);
        }
        self.children.as_slice()
    }

    fn find_child(&self, child: Entity) -> (pos: Option<usize>)
        ensures
            match pos {
                Some(i) => i < self.spec_children().len() && self.spec_children()[i as int] == child,
                None => !self.spec_children().contains(child),
            },
    {
        let mut i: usize = 0;
        while i < self.children.len()
            invariant
                i <= self.children@.len(),
                forall|j: int| 0 <= j < i ==> self.children@[j] != child,
            decreases self.children@.len() - i,
        {
            if self.children[i] == child {
                return Some(i);
            }
            i = i + 1;
        }
        None
    }

    /// Adds `child` at the end of the children unless it is already one.
    pub fn add_child(&mut self, child: Entity)
        ensures
            final(self).spec_parent() == old(self).spec_parent(),
            old(self).spec_children().contains(child) ==> final(self).spec_children() == old(
                self,
            ).spec_children(),
            !old(self).spec_children().contains(child) ==> final(self).spec_children() == old(
                self,
            ).spec_children().push(child),
            final(self).spec_children() == children_with(old(self).spec_children(), child),
            final(self).spec_children().no_duplicates(),
    {
        proof {
            use_type_invariant(&*self);
        }
        if self.find_child(child).is_none() {
            let mut list: Vec<Entity> = Vec::new();
            std::mem::swap(&mut list, &mut self.children);
            list.push(child);
            self.children = list;
        }
        proof {
            use_type_invariant(&*self);
        }
    }

    /// Removes `child`; returns whether it was a child.
    pub fn remove_child(&mut self, child: Entity) -> (removed: bool)
        ensures
            removed == old(self).spec_children().contains(child),
            final(self).spec_parent() == old(self).spec_parent(),
            removed ==> final(self).spec_children() == old(self).spec_children().remove(
                old(self).spec_children().index_of(child),
            ),
            !removed ==> final(self).spec_children() == old(self).spec_children(),
            !final(self).spec_children().contains(child),
            final(self).spec_children() == children_without(old(self).spec_children(), child),
            final(self).spec_children().no_duplicates(),
    {
        proof {
            use_type_invariant(&*self);
        }
        match self.find_child(child) {
            Some(pos) => {
                let ghost before = self.children@;
                proof {
                    let k = before.index_of(child);
                    assert(before.contains(child));
                    assert(before[k] == child);
                    assert(k == pos as int);
                }
                let mut list: Vec<Entity> = Vec::new();
                std::mem::swap(&mut list, &mut self.children);
                list.remove(pos);
                proof {
                    assert forall|j: int| 0 <= j < list@.len() implies list@[j] != child by {
                        if j < pos {
                            assert(list@[j] == before[j]);
                        } else {
                            assert(list@[j] == before[j + 1]);
                        }
                    }
                }
                self.children = list;
                proof {
                    assert forall|j: int| 0 <= j < self.children@.len() implies self.children@[j]
                        != child by {
                        if j < pos {
                            assert(self.children@[j] == before[j]);
                        } else {
                            assert(self.children@[j] == before[j + 1]);
                        }
                    }
                    use_type_invariant(&*self);
                }
                true
            },
            None => false,
        }
    }

    /// Removes every child; the parent stays.
    pub fn clear_children(&mut self)
        ensures
            final(self).spec_parent() == old(self).spec_parent(),
            final(self).spec_children() == Seq::<Entity>::empty(),
    {
        self.children = Vec::new();
    }

    /// Whether there is at least one child.
    pub fn has_children(&self) -> (b: bool)
        ensures
            b == (self.spec_children().len() > 0),
    {
        self.children.len() > 0
    }

    /// Whether a parent is set.
    pub fn has_parent(&self) -> (b: bool)
        ensures
            b == self.spec_parent() is Some,
    {
        self.parent.is_some()
    }

    /// The number of children.
    pub fn child_count(&self) -> (n: usize)
        ensures
            n == self.spec_children().len(),
    {
        self.children.len()
    }

    /// Whether `entity` is one of the children.
    pub fn is_child(&self, entity: Entity) -> (b: bool)
        ensures
            b == self.spec_children().contains(entity),
    {
        self.find_child(entity).is_some()
    }

    /// Whether `entity` is the parent.
    pub fn is_parent(&self, entity: Entity) -> (b: bool)
        ensures
            b == (self.spec_parent() == Some(entity)),
    {
        match self.parent {
            Some(p) => p == entity,
            None => false,
        }
    }

}

/// The id under which hierarchy components are stored.
pub const HIERARCHY_COMPONENT: ComponentTypeId = 1;

impl Component for HierarchyComponent {
    /// A hierarchy is valid when its parent is not also one of its children
    /// and no child is listed twice.
    open spec fn spec_valid(&self) -> bool {
        &&& match self.spec_parent() {
            Some(p) => !self.spec_children().contains(p),
            None => true,
        }
        &&& self.spec_children().no_duplicates()
    }

    open spec fn spec_type_id() -> ComponentTypeId {
        HIERARCHY_COMPONENT
    }

    /// Checks that the parent is not also listed as a child; children are
    /// never listed twice.
    fn validate(&self) -> (b: bool) {
        proof {
            use_type_invariant(self);
        }
        match self.parent {
            Some(p) => !self.is_child(p),
            None => true,
        }
    }

    fn component_type_id() -> (id: ComponentTypeId) {
        HIERARCHY_COMPONENT
    }
}

impl Clone for HierarchyComponent {
    fn clone(&self) -> (h: Self)
        ensures
            h.spec_parent() == self.spec_parent(),
            h.spec_children() == self.spec_children(),
    {
        proof {
            use_type_invariant(self);
        }
        let mut list: Vec<Entity> = Vec::new();
        let mut i: usize = 0;
        while i < self.children.len()
            invariant
                i <= self.children@.len(),
                list@ == self.children@.subrange(0, i as int),
            decreases self.children@.len() - i,
        {
            list.push(self.children[i]);
            i = i + 1;
            proof {
                assert(list@ == self.children@.subrange(0, i as int));
            }
        }
        proof {
            assert(list@ == self.children@);
        }
        HierarchyComponent { parent: self.parent, children: list }
    }
}

impl Default for HierarchyComponent {
    fn default() -> (h: Self)
        ensures
            h.spec_parent() is None,
            h.spec_children() == Seq::<Entity>::empty(),
    {
        Self::new()
    }
}


/// The children list after `add_child(child)`.
pub open spec fn children_with(children: Seq<Entity>, child: Entity) -> Seq<Entity> {
    if children.contains(child) {
        children
    } else {
        children.push(child)
    }
}

/// The children list after `remove_child(child)`.
pub open spec fn children_without(children: Seq<Entity>, child: Entity) -> Seq<Entity> {
    if children.contains(child) {
        children.remove(children.index_of(child))
    } else {
        children
    }
}

/// Adding a child twice is adding it once; afterwards it is a child.
pub proof fn lemma_add_child_idempotent(children: Seq<Entity>, child: Entity)
    ensures
        children_with(children_with(children, child), child) == children_with(children, child),
        children_with(children, child).contains(child),
{
    if !children.contains(child) {
        assert(children.push(child)[children.len() as int] == child);
    }
}

/// Removing a child just added, that was not a child before, gives back the
/// children as they were.
pub proof fn lemma_remove_undoes_add_child(children: Seq<Entity>, child: Entity)
    requires
        !children.contains(child),
    ensures
        children_without(children_with(children, child), child) == children,
{
    let added = children.push(child);
    assert(added[children.len() as int] == child);
    assert(added.contains(child));
    let k = added.index_of(child);
    assert(added[k] == child);
    if k < children.len() {
        assert(children[k] == child);
    }
    assert(k == children.len());
    assert(added.remove(k) =~= children);
}

/// Adding and removing children keep a list free of duplicates, and a
/// removed child is no longer a child.
pub proof fn lemma_children_stay_distinct(children: Seq<Entity>, child: Entity)
    requires
        children.no_duplicates(),
    ensures
        children_with(children, child).no_duplicates(),
        children_without(children, child).no_duplicates(),
        !children_without(children, child).contains(child),
{
    if children.contains(child) {
        let k = children.index_of(child);
        let rest = children.remove(k);
        assert(children[k] == child);
        assert forall|i: int, j: int| 0 <= i < j < rest.len() implies rest[i] != rest[j] by {
            let i0 = if i < k { i } else { i + 1 };
            let j0 = if j < k { j } else { j + 1 };
            assert(rest[i] == children[i0]);
            assert(rest[j] == children[j0]);
        }
        assert forall|i: int| 0 <= i < rest.len() implies rest[i] != child by {
            let i0 = if i < k { i } else { i + 1 };
            assert(rest[i] == children[i0]);
        }
    } else {
        let added = children.push(child);
        assert forall|i: int, j: int| 0 <= i < j < added.len() implies added[i] != added[j] by {
            if j == children.len() {
                assert(added[i] == children[i]);
            }
        }
    }
}

/// `parent` lists `child` among its children in the map.
pub open spec fn has_edge(graph: Map<Entity, Vec<Entity>>, parent: Entity, child: Entity) -> bool {
    graph.contains_key(parent) && graph[parent]@.contains(child)
}

/// `path` is a non-empty walk that follows parent-to-child edges.
pub open spec fn is_walk(graph: Map<Entity, Vec<Entity>>, path: Seq<Entity>) -> bool {
    &&& path.len() > 0
    &&& forall|i: int| 0 <= i < path.len() - 1 ==> has_edge(graph, #[trigger] path[i], path[i + 1])
}

/// The walk ends on an entity of `stack` or on an entity it passed before.
pub open spec fn walk_closes(path: Seq<Entity>, stack: Set<Entity>) -> bool {
    stack.contains(path.last()) || path.drop_last().contains(path.last())
}

/// Starting at `start`, one can walk down the hierarchy to an entity of
/// `stack` or around a cycle.
pub open spec fn reaches_stack_or_cycle(
    graph: Map<Entity, Vec<Entity>>,
    start: Entity,
    stack: Set<Entity>,
) -> bool {
    exists|path: Seq<Entity>|
        #![trigger is_walk(graph, path), walk_closes(path, stack)]
        is_walk(graph, path) && path[0] == start && walk_closes(path, stack)
}

/// In a hierarchy where every child has a larger id than its parent, no
/// walk from any entity comes back to an entity it passed: the search from
/// an empty path reports no cycle.
pub proof fn lemma_ordered_hierarchy_has_no_cycle(graph: Map<Entity, Vec<Entity>>, start: Entity)
    requires
        forall|p: Entity, c: Entity| #[trigger] has_edge(graph, p, c) ==> p < c,
    ensures
        !reaches_stack_or_cycle(graph, start, Set::empty()),
{
    assert forall|path: Seq<Entity>|
        is_walk(graph, path) && path[0] == start implies !walk_closes(path, Set::empty()) by {
        lemma_walk_increases(graph, path, path.len() - 1);
        if path.drop_last().contains(path.last()) {
            let i = choose|i: int| 0 <= i < path.drop_last().len() && path.drop_last()[i] == path.last();
            assert(path[i] == path.last());
        }
    }
}

/// Along a walk in such a hierarchy, every entity before position `k` has
/// a smaller id than the entity at `k`.
proof fn lemma_walk_increases(graph: Map<Entity, Vec<Entity>>, path: Seq<Entity>, k: int)
    requires
        forall|p: Entity, c: Entity| #[trigger] has_edge(graph, p, c) ==> p < c,
        is_walk(graph, path),
        0 <= k < path.len(),
    ensures
        forall|i: int| 0 <= i < k ==> path[i] < path[k],
    decreases k,
{
    if k > 0 {
        lemma_walk_increases(graph, path, k - 1);
        assert(has_edge(graph, path[k - 1], path[k]));
    }
}

/// The hierarchy operations did not fail.
#[derive(Debug, Clone, Copy, PartialEq, Eq)]
pub struct HierarchyError;

/// Maintains parent/child relationships between hierarchy components.
pub struct HierarchySystem;

impl HierarchySystem {
    /// Depth-first search from `current` over the parent-to-child map; `visited`
    /// holds the entities on the current search path. Reports whether a cycle
    /// (or an entity already on the path) can be reached from `current`.
    pub fn has_circular_dependency(
        current: Entity,
        parent_child_map: &HashMap<Entity, Vec<Entity>>,
        visited: &mut HashSet<Entity>,
    ) -> (r: Result<bool, HierarchyError>)
        ensures
            r matches Ok(found) && found == reaches_stack_or_cycle(
                parent_child_map@,
                current,
                old(visited)@,
            ),
            r matches Ok(found) && !found ==> final(visited)@ == old(visited)@,
            old(visited)@.subset_of(final(visited)@),
        decreases parent_child_map@.dom().difference(old(visited)@).len(),
    {
        broadcast use vstd::std_specs::hash::group_hash_axioms;

        let ghost graph = parent_child_map@;
        let ghost stack = visited@;
        if visited.contains(&current) {
            proof {
                let path = seq![current];
                assert(is_walk(graph, path));
                assert(walk_closes(path, stack));
            }
            return Ok(true);
        }
        visited.insert(current);
        match parent_child_map.get(&current) {
            Some(children) => {
                let mut i: usize = 0;
                while i < children.len()
                    invariant
                        graph == parent_child_map@,
                        stack == old(visited)@,
                        graph.contains_key(current),
                        graph[current] == *children,
                        !stack.contains(current),
                        visited@ == stack.insert(current),
                        i <= children@.len(),
                        graph.dom().finite(),
                        forall|j: int|
                            0 <= j < i ==> !reaches_stack_or_cycle(
                                graph,
                                #[trigger] children@[j],
                                stack.insert(current),
                            ),
                    decreases children@.len() - i,
                {
                    let child = children[i];
                    proof {
                        let smaller = graph.dom().difference(stack.insert(current));
                        let larger = graph.dom().difference(stack);
                        assert(larger =~= smaller.insert(current));
                        assert(smaller.subset_of(graph.dom()));
                        vstd::set_lib::lemma_len_subset(smaller, graph.dom());
                        assert(!smaller.contains(current));
                        assert(larger.len() == smaller.len() + 1);
                    }
                    let found = Self::has_circular_dependency(child, parent_child_map, visited);
                    match found {
                        Ok(true) => {
                            proof {
                                let q = choose|q: Seq<Entity>|
                                    #![trigger is_walk(graph, q), walk_closes(q, stack.insert(current))]
                                    is_walk(graph, q) && q[0] == child && walk_closes(q, stack.insert(current));
                                let path = seq![current] + q;
                                assert(path[0] == current);
                                assert forall|k: int| 0 <= k < path.len() - 1 implies has_edge(graph, #[trigger] path[k], path[k + 1]) by {
                                    if k == 0 {
                                        assert(path[1] == child);
                                        assert(children@.contains(child)) by { assert(children@[i as int] == child); }
                                    } else {
                                        assert(path[k] == q[k - 1]);
                                        assert(path[k + 1] == q[k]);
                                    }
                                }
                                assert(path.last() == q.last());
                                assert(path.drop_last() =~= seq![current] + q.drop_last());
                                if stack.insert(current).contains(q.last()) && !stack.contains(q.last()) {
                                    assert(q.last() == current);
                                    assert(path.drop_last()[0] == current);
                                } else if q.drop_last().contains(q.last()) {
                                    let k = choose|k: int| 0 <= k < q.drop_last().len() && q.drop_last()[k] == q.last();
                                    assert(path.drop_last()[k + 1] == q.last());
                                }
                                assert(walk_closes(path, stack));
                                assert(is_walk(graph, path));
                            }
                            return Ok(true);
                        },
                        _ => {},
                    }
                    i = i + 1;
                }
                proof {
                    assert forall|path: Seq<Entity>| is_walk(graph, path) && path[0] == current implies !walk_closes(path, stack) by {
                        if walk_closes(path, stack) {
                            if path.len() == 1 {
                                assert(path.drop_last().len() == 0);
                                assert(false);
                            } else {
                                let q = path.subrange(1, path.len() as int);
                                assert(has_edge(graph, path[0], path[1]));
                                let c = path[1];
                                let j = choose|j: int| 0 <= j < children@.len() && children@[j] == c;
                                assert(is_walk(graph, q)) by {
                                    assert forall|k: int| 0 <= k < q.len() - 1 implies has_edge(graph, #[trigger] q[k], q[k + 1]) by {
                                        assert(q[k] == path[k + 1]);
                                        assert(q[k + 1] == path[k + 2]);
                                    }
                                }
                                assert(q.last() == path.last());
                                if stack.contains(path.last()) {
                                    assert(walk_closes(q, stack.insert(current)));
                                } else {
                                    let k = choose|k: int| 0 <= k < path.drop_last().len() && path.drop_last()[k] == path.last();
                                    if k == 0 {
                                        assert(path.last() == current);
                                        assert(walk_closes(q, stack.insert(current)));
                                    } else {
                                        assert(q.drop_last()[k - 1] == path.last());
                                        assert(walk_closes(q, stack.insert(current)));
                                    }
                                }
                                assert(!reaches_stack_or_cycle(graph, children@[j], stack.insert(current)));
                                assert(false);
                            }
                        }
                    }
                }
            },
            None => {
                proof {
                    assert forall|path: Seq<Entity>| is_walk(graph, path) && path[0] == current implies !walk_closes(path, stack) by {
                        if path.len() > 1 {
                            assert(has_edge(graph, path[0], path[1]));
                        }
                    }
                }
            },
        }
        visited.remove(&current);
        proof {
            assert(visited@ == stack);
        }
        Ok(false)
    }

    /// Points `child_hierarchy` at `new_parent`; removes `child_entity` from the
    /// given parent component when an old parent is named, and adds it there when
    /// a new parent is named.
    pub fn set_parent_relationship(
        child_hierarchy: &mut HierarchyComponent,
        parent_hierarchy: Option<&mut HierarchyComponent>,
        child_entity: Entity,
        new_parent: Option<Entity>,
        old_parent: Option<Entity>,
    ) -> (r: Result<(), HierarchyError>)
        ensures
            r is Ok,
            final(child_hierarchy).spec_parent() == new_parent,
            final(child_hierarchy).spec_children() == old(child_hierarchy).spec_children(),
            parent_hierarchy matches Some(p) ==> final(p).spec_parent() == (*p).spec_parent(),
            parent_hierarchy matches Some(p) ==> final(p).spec_children() == ({
                let kept = if old_parent is Some {
                    children_without((*p).spec_children(), child_entity)
                } else {
                    (*p).spec_children()
                };
                if new_parent is Some {
                    children_with(kept, child_entity)
                } else {
                    kept
                }
            }),
    {
        child_hierarchy.set_parent(new_parent);
        match parent_hierarchy {
            Some(p) => {
                if old_parent.is_some() {
                    p.remove_child(child_entity);
                }
                if new_parent.is_some() {
                    p.add_child(child_entity);
                }
            },
            None => {},
        }
        Ok(())
    }
}

} // verus!
