use vstd::prelude::*;
use vstd::string::StringExecFns;
use std::collections::HashMap;
use std::marker::PhantomData;
use crate::schedule::{DependencyError, SystemSchedule, SystemTypeId, depends_directly, is_execution_order};
use crate::text::{id_views, str_eq};
use crate::diffing::{DebugTracker, history_text};

verus! {

broadcast use vstd::std_specs::hash::group_hash_axioms;

/// An entity is a plain numeric identifier handed out by the world.
pub type Entity = u32;

/// Identifies a kind of component; each component type picks its own.
pub type ComponentTypeId = u64;

/// Behaviour shared by all component types.
pub trait Component {
    /// When the component's state is consistent.
    spec fn spec_valid(&self) -> bool;

    /// The id under which components of this type are stored.
    spec fn spec_type_id() -> ComponentTypeId;

    /// Checks the component's state.
    fn validate(&self) -> (b: bool)
        ensures
            b == self.spec_valid(),
    ;

    /// The id under which components of this type are stored.
    fn component_type_id() -> (id: ComponentTypeId)
        ensures
            id == Self::spec_type_id(),
    ;
}

/// Marks a component type that a query accesses mutably.
pub struct Mut<T> {
    _phantom: PhantomData<T>,
}

impl<T> Mut<T> {
    /// The marker for the wrapped component type.
    pub fn inner_type() -> PhantomData<T> {
        PhantomData
    }
}

/// How a query accesses one component type.
pub trait AccessMode {
    /// Whether the access is mutable.
    spec fn spec_is_mutable() -> bool;

    /// The component type accessed.
    spec fn spec_component_type_id() -> ComponentTypeId;

    /// Whether the access is mutable.
    fn is_mutable() -> (b: bool)
        ensures
            b == Self::spec_is_mutable(),
    ;

    /// The component type accessed.
    fn component_type_id() -> (id: ComponentTypeId)
        ensures
            id == Self::spec_component_type_id(),
    ;
}

impl<T: Component> AccessMode for T {
    open spec fn spec_is_mutable() -> bool {
        false
    }

    open spec fn spec_component_type_id() -> ComponentTypeId {
        T::spec_type_id()
    }

    fn is_mutable() -> (b: bool) {
        false
    }

    fn component_type_id() -> (id: ComponentTypeId) {
        T::component_type_id()
    }
}

impl<T: Component> AccessMode for Mut<T> {
    open spec fn spec_is_mutable() -> bool {
        true
    }

    open spec fn spec_component_type_id() -> ComponentTypeId {
        T::spec_type_id()
    }

    fn is_mutable() -> (b: bool) {
        true
    }

    fn component_type_id() -> (id: ComponentTypeId) {
        T::component_type_id()
    }
}

/// `HashMap::get_mut`: hands out the value stored under `key`, and whatever is
/// written through it becomes the key's value; the map is left as it was when
/// the key is absent (as std documents). Stated for key types whose equality
/// and hashing behave, as vstd states its own `HashMap` specifications.
#[verifier::external_body]
fn hash_map_get_mut<'a, K: std::hash::Hash + Eq, V>(map: &'a mut HashMap<K, V>, key: &K) -> (r:
    Option<&'a mut V>)
    requires
        vstd::std_specs::hash::obeys_key_model::<K>(),
    ensures
        match r {
            Some(v) => {
                &&& old(map)@.contains_key(*key)
                &&& *v == old(map)@[*key]
                &&& final(map)@ == old(map)@.insert(*key, *final(v))
            },
            None => !old(map)@.contains_key(*key) && final(map)@ == old(map)@,
        },
{
    map.get_mut(key)
}

/// Storage for the components of one type, keyed by entity.
pub struct ComponentPool<V> {
    components: HashMap<Entity, V>,
}

impl<V> View for ComponentPool<V> {
    type V = Map<Entity, V>;

    closed spec fn view(&self) -> Map<Entity, V> {
        self.components@
    }
}

impl<V> ComponentPool<V> {
    /// An empty pool.
    pub fn new() -> (p: Self)
        ensures
            p@ == Map::<Entity, V>::empty(),
    {
        ComponentPool { components: HashMap::new() }
    }

    /// Stores `component` for `entity`, replacing what was there.
    pub fn insert(&mut self, entity: Entity, component: V)
        ensures
            final(self)@ == old(self)@.insert(entity, component),
    {
        self.components.insert(entity, component);
    }

    /// The component stored for `entity`.
    pub fn get(&self, entity: Entity) -> (r: Option<&V>)
        ensures
            match r {
                Some(v) => self@.contains_key(entity) && *v == self@[entity],
                None => !self@.contains_key(entity),
            },
    {
        self.components.get(&entity)
    }

    /// The component stored for `entity`, for modification in place.
    pub fn get_mut(&mut self, entity: Entity) -> (r: Option<&mut V>)
        ensures
            match r {
                Some(v) => {
                    &&& old(self)@.contains_key(entity)
                    &&& *v == old(self)@[entity]
                    &&& final(self)@ == old(self)@.insert(entity, *final(v))
                },
                None => !old(self)@.contains_key(entity) && final(self)@ == old(self)@,
            },
    {
        hash_map_get_mut(&mut self.components, &entity)
    }

    /// Takes out the component stored for `entity`.
    pub fn remove(&mut self, entity: Entity) -> (r: Option<V>)
        ensures
            final(self)@ == old(self)@.remove(entity),
            match r {
                Some(v) => old(self)@.contains_key(entity) && v == old(self)@[entity],
                None => !old(self)@.contains_key(entity),
            },
    {
        self.components.remove(&entity)
    }

    /// Whether a component is stored for `entity`.
    pub fn contains(&self, entity: Entity) -> (b: bool)
        ensures
            b == self@.contains_key(entity),
    {
        self.components.contains_key(&entity)
    }

    /// The entities that have a component here, each once, in no particular order.
    pub fn entities(&self) -> (r: Vec<Entity>)
        ensures
            r@.no_duplicates(),
            r@.to_set() == self@.dom(),
    {
        let mut r: Vec<Entity> = Vec::new();
        for e in it: self.components.keys()
            invariant
                r@.len() == it.index(),
                forall|j: int| 0 <= j < it.index() ==> r@[j] == *it.seq()[j],
        {
            r.push(*e);
        }
        proof {
            let keys = vstd::std_specs::iter::IteratorSpec::remaining(&vstd::std_specs::hash::spec_keys_iter(&self.components)).unref();
            assert(r@ =~= keys);
        }
        r
    }
}

/// A system: what it depends on, what it iterates over, and its update step.
pub trait System {
    type Dependencies;
    type Iterators;

    /// Runs the system once over its iterators.
    fn update(&mut self, iterators: Self::Iterators);
}

/// Gives the name of a system type.
pub trait SystemMarker {
    /// The system's name.
    spec fn spec_name() -> Seq<char>;

    /// The system's name.
    fn name() -> (n: &'static str)
        ensures
            n@ == Self::spec_name(),
    ;
}

/// The names of the systems a system depends on.
pub trait SystemDependencies {
    /// The dependency names, in order.
    spec fn spec_dependency_names() -> Seq<Seq<char>>;

    /// The dependency names, in order.
    fn get_dependency_names() -> (r: Vec<&'static str>)
        ensures
            id_views(r@) == Self::spec_dependency_names(),
    ;
}

impl SystemDependencies for () {
    open spec fn spec_dependency_names() -> Seq<Seq<char>> {
        Seq::empty()
    }

    fn get_dependency_names() -> (r: Vec<&'static str>) {
        let r: Vec<&'static str> = Vec::new();
        proof {
            assert(id_views(r@) =~= Seq::<Seq<char>>::empty());
        }
        r
    }
}

impl<T: SystemMarker> SystemDependencies for T {
    open spec fn spec_dependency_names() -> Seq<Seq<char>> {
        seq![T::spec_name()]
    }

    fn get_dependency_names() -> (r: Vec<&'static str>) {
        let mut r: Vec<&'static str> = Vec::new();
        r.push(T::name());
        proof {
            assert(id_views(r@) =~= seq![T::spec_name()]);
        }
        r
    }
}

impl<T1: SystemMarker, T2: SystemMarker> SystemDependencies for (T1, T2) {
    open spec fn spec_dependency_names() -> Seq<Seq<char>> {
        seq![T1::spec_name(), T2::spec_name()]
    }

    fn get_dependency_names() -> (r: Vec<&'static str>) {
        let mut r: Vec<&'static str> = Vec::new();
        r.push(T1::name());
        r.push(T2::name());
        proof {
            assert(id_views(r@) =~= seq![T1::spec_name(), T2::spec_name()]);
        }
        r
    }
}

impl<T1: SystemMarker, T2: SystemMarker, T3: SystemMarker> SystemDependencies for (T1, T2, T3) {
    open spec fn spec_dependency_names() -> Seq<Seq<char>> {
        seq![T1::spec_name(), T2::spec_name(), T3::spec_name()]
    }

    fn get_dependency_names() -> (r: Vec<&'static str>) {
        let mut r: Vec<&'static str> = Vec::new();
        r.push(T1::name());
        r.push(T2::name());
        r.push(T3::name());
        proof {
            assert(id_views(r@) =~= seq![T1::spec_name(), T2::spec_name(), T3::spec_name()]);
        }
        r
    }
}

/// The names of a list of strings.
pub open spec fn string_views(list: Seq<String>) -> Seq<Seq<char>> {
    list.map_values(|s: String| s@)
}

/// The number of entries marked done.
pub open spec fn count_done(done: Seq<bool>) -> nat
    decreases done.len(),
{
    if done.len() == 0 {
        0
    } else {
        count_done(done.drop_last()) + if done.last() { 1nat } else { 0nat }
    }
}

/// `order` holds `j` at a position before `a`.
pub open spec fn placed_before(order: Seq<usize>, a: int, j: int) -> bool {
    exists|b: int| 0 <= b < a && order[b] as int == j
}

proof fn lemma_count_done_none(done: Seq<bool>)
    requires
        forall|x: int| 0 <= x < done.len() ==> !#[trigger] done[x],
    ensures
        count_done(done) == 0,
    decreases done.len(),
{
    if done.len() > 0 {
        lemma_count_done_none(done.drop_last());
    }
}

proof fn lemma_count_done_bound(done: Seq<bool>)
    ensures
        count_done(done) <= done.len(),
    decreases done.len(),
{
    if done.len() > 0 {
        lemma_count_done_bound(done.drop_last());
    }
}

proof fn lemma_count_done_set(done: Seq<bool>, i: int)
    requires
        0 <= i < done.len(),
        !done[i],
    ensures
        count_done(done.update(i, true)) == count_done(done) + 1,
    decreases done.len(),
{
    let after = done.update(i, true);
    if i == done.len() - 1 {
        assert(after.drop_last() =~= done.drop_last());
    } else {
        assert(after.drop_last() =~= done.drop_last().update(i, true));
        lemma_count_done_set(done.drop_last(), i);
    }
}

proof fn lemma_count_done_all(done: Seq<bool>)
    requires
        forall|x: int| 0 <= x < done.len() ==> #[trigger] done[x],
    ensures
        count_done(done) == done.len(),
    decreases done.len(),
{
    if done.len() > 0 {
        lemma_count_done_all(done.drop_last());
    }
}

/// What placing systems one by one keeps: `done` marks exactly the systems
/// in `order`, each listed once, each after every system it depends on.
pub open spec fn placement_inv(
    ids: Seq<Seq<char>>,
    deps: Seq<Seq<Seq<char>>>,
    done: Seq<bool>,
    order: Seq<usize>,
) -> bool {
    &&& done.len() == ids.len()
    &&& order.len() == count_done(done)
    &&& forall|x: int| 0 <= x < ids.len() ==> (#[trigger] done[x] <==> order.contains(x as usize))
    &&& forall|a: int| 0 <= a < order.len() ==> #[trigger] order[a] < ids.len()
    &&& order.no_duplicates()
    &&& forall|a: int, j: int|
        0 <= a < order.len() && 0 <= j < ids.len() && #[trigger] depends_directly(
            ids,
            deps,
            order[a] as int,
            j,
        ) ==> placed_before(order, a, j)
}

/// Once every system is placed, the placement is an execution order.
proof fn lemma_complete_placement_is_order(
    ids: Seq<Seq<char>>,
    deps: Seq<Seq<Seq<char>>>,
    done: Seq<bool>,
    order: Seq<usize>,
)
    requires
        placement_inv(ids, deps, done, order),
        forall|x: int| 0 <= x < done.len() ==> #[trigger] done[x],
        ids.len() <= usize::MAX,
    ensures
        is_execution_order(ids, deps, order.map_values(|x: usize| x as int)),
{
    let ord = order.map_values(|x: usize| x as int);
    lemma_count_done_all(done);
    assert forall|a: int, b: int| 0 <= a < b < ord.len() implies ord[a] != ord[b] by {
        assert(order[a] != order[b]);
    }
    assert forall|x: int| 0 <= x < ids.len() implies #[trigger] ord.contains(x) by {
        assert(done[x]);
        assert(order.contains(x as usize));
        let b = choose|b: int| 0 <= b < order.len() && order[b] == x as usize;
        assert(ord[b] == x);
    }
    assert forall|a: int, b: int| 0 <= a <= b < ord.len() implies !depends_directly(
        ids,
        deps,
        #[trigger] ord[a],
        #[trigger] ord[b],
    ) by {
        if depends_directly(ids, deps, ord[a], ord[b]) {
            assert(order[a] as int == ord[a]);
            assert(placed_before(order, a, ord[b]));
            let c = choose|c: int| 0 <= c < a && order[c] as int == ord[b];
            assert(order[c] == order[b]);
        }
    }
}

/// When every system not marked done depends on another one not marked
/// done, no execution order exists.
proof fn lemma_stuck_has_no_order(ids: Seq<Seq<char>>, deps: Seq<Seq<Seq<char>>>, done: Seq<bool>)
    requires
        done.len() == ids.len(),
        exists|x: int| 0 <= x < done.len() && !done[x],
        forall|x: int|
            0 <= x < done.len() && !#[trigger] done[x] ==> exists|j: int|
                0 <= j < done.len() && !done[j] && depends_directly(ids, deps, x, j),
    ensures
        !exists|order: Seq<int>| is_execution_order(ids, deps, order),
{
    if exists|order: Seq<int>| is_execution_order(ids, deps, order) {
        let order = choose|order: Seq<int>| is_execution_order(ids, deps, order);
        lemma_stuck_prefix_done(ids, deps, done, order, order.len() as int);
        let x = choose|x: int| 0 <= x < done.len() && !done[x];
        assert(order.contains(x));
        let p = choose|p: int| 0 <= p < order.len() && order[p] == x;
        assert(done[order[p]]);
    }
}

proof fn lemma_stuck_prefix_done(
    ids: Seq<Seq<char>>,
    deps: Seq<Seq<Seq<char>>>,
    done: Seq<bool>,
    order: Seq<int>,
    k: int,
)
    requires
        done.len() == ids.len(),
        forall|x: int|
            0 <= x < done.len() && !#[trigger] done[x] ==> exists|j: int|
                0 <= j < done.len() && !done[j] && depends_directly(ids, deps, x, j),
        is_execution_order(ids, deps, order),
        0 <= k <= order.len(),
    ensures
        forall|a: int| 0 <= a < k ==> #[trigger] done[order[a]],
    decreases k,
{
    if k > 0 {
        lemma_stuck_prefix_done(ids, deps, done, order, k - 1);
        let x = order[k - 1];
        if !done[x] {
            let j = choose|j: int| 0 <= j < done.len() && !done[j] && depends_directly(ids, deps, x, j);
            assert(order.contains(j));
            let q = choose|q: int| 0 <= q < order.len() && order[q] == j;
            if q < k - 1 {
                assert(done[order[q]]);
            } else {
                assert(!depends_directly(ids, deps, order[k - 1], order[q]));
            }
        }
    }
}

/// Systems registered by name, run after the systems they depend on.
pub struct SystemRegistry {
    systems: Vec<String>,
    dependencies: Vec<(String, Vec<String>)>,
}

impl SystemRegistry {
    /// The names of the registered systems, in registration order.
    pub closed spec fn spec_systems(&self) -> Seq<Seq<char>> {
        string_views(self.systems@)
    }

    /// The dependency names recorded for each system name.
    pub closed spec fn spec_dependencies(&self) -> Map<Seq<char>, Seq<Seq<char>>> {
        Map::new(
            |name: Seq<char>|
                exists|i: int| 0 <= i < self.dependencies@.len() && self.dependencies@[i].0@ == name,
            |name: Seq<char>| {
                let i = choose|i: int|
                    0 <= i < self.dependencies@.len() && self.dependencies@[i].0@ == name;
                string_views(self.dependencies@[i].1@)
            },
        )
    }

    /// The dependency names of each registered system, in registration order.
    pub open spec fn spec_system_deps(&self) -> Seq<Seq<Seq<char>>> {
        Seq::new(
            self.spec_systems().len(),
            |i: int| self.spec_dependencies()[self.spec_systems()[i]],
        )
    }

    /// Each name has at most one dependency entry, and every registered
    /// system has one.
    pub closed spec fn wf(&self) -> bool {
        &&& forall|i: int, j: int|
            0 <= i < j < self.dependencies@.len() ==> self.dependencies@[i].0@
                != self.dependencies@[j].0@
        &&& forall|i: int|
            0 <= i < self.systems@.len() ==> #[trigger] self.spec_dependencies().contains_key(
                self.systems@[i]@,
            )
    }

    /// An empty registry.
    pub fn new() -> (r: Self)
        ensures
            r.wf(),
            r.spec_systems() == Seq::<Seq<char>>::empty(),
            r.spec_dependencies() == Map::<Seq<char>, Seq<Seq<char>>>::empty(),
    {
        let r = SystemRegistry { systems: Vec::new(), dependencies: Vec::new() };
        proof {
            assert(r.spec_systems() =~= Seq::<Seq<char>>::empty());
            assert(r.spec_dependencies() =~= Map::<Seq<char>, Seq<Seq<char>>>::empty());
        }
        r
    }

    /// Registers system `name`, recording the names of the systems it depends
    /// on (replacing an earlier record under the same name).
    pub fn register_system<S: System>(&mut self, name: &str, _system: S)
        where
            S::Dependencies: SystemDependencies,
        requires
            old(self).wf(),
        ensures
            final(self).wf(),
            final(self).spec_systems() == old(self).spec_systems().push(name@),
            final(self).spec_dependencies() == old(self).spec_dependencies().insert(
                name@,
                <S::Dependencies as SystemDependencies>::spec_dependency_names(),
            ),
    {
        let names = <S::Dependencies as SystemDependencies>::get_dependency_names();
        let mut deps: Vec<String> = Vec::new();
        let mut k: usize = 0;
        while k < names.len()
            invariant
                k <= names@.len(),
                string_views(deps@) == id_views(names@).subrange(0, k as int),
            decreases names@.len() - k,
        {
            let ghost prev = deps@;
            deps.push(String::from_str(names[k]));
            k = k + 1;
            proof {
                assert(string_views(deps@) =~= string_views(prev).push(names@[k - 1]@));
                assert(id_views(names@).subrange(0, k as int) =~= id_views(names@).subrange(
                    0,
                    k - 1,
                ).push(names@[k - 1]@));
            }
        }
        proof {
            assert(id_views(names@).subrange(0, names@.len() as int) =~= id_views(names@));
        }
        let ghost before = self.spec_dependencies();
        let found = self.find_entry(name);
        let ghost new_deps = string_views(deps@);
        match found {
            Some(idx) => {
                let ghost old_list = self.dependencies@;
                let entry = (String::from_str(name), deps);
                self.dependencies.set(idx, entry);
                proof {
                    assert forall|a: int, b: int|
                        0 <= a < b < self.dependencies@.len() implies self.dependencies@[a].0@
                        != self.dependencies@[b].0@ by {
                        if a != idx as int && b != idx as int {
                            assert(old_list[a].0@ != old_list[b].0@);
                        } else if a == idx as int {
                            assert(old_list[a].0@ != old_list[b].0@);
                        } else {
                            assert(old_list[a].0@ != old_list[b].0@);
                        }
                    }
                    assert forall|n: Seq<char>| #[trigger] self.spec_dependencies().contains_key(n)
                        == before.insert(name@, new_deps).contains_key(n) by {
                        if n != name@ {
                            if before.contains_key(n) {
                                let j = choose|j: int|
                                    0 <= j < old_list.len() && old_list[j].0@ == n;
                                assert(self.dependencies@[j].0@ == n);
                            }
                            if self.spec_dependencies().contains_key(n) {
                                let j = choose|j: int|
                                    0 <= j < self.dependencies@.len() && self.dependencies@[j].0@
                                        == n;
                                assert(old_list[j].0@ == n);
                            }
                        } else {
                            assert(self.dependencies@[idx as int].0@ == n);
                        }
                    }
                    assert forall|n: Seq<char>| #[trigger] self.spec_dependencies().contains_key(n)
                        implies self.spec_dependencies()[n] == before.insert(name@, new_deps)[n] by {
                        let j = choose|j: int|
                            0 <= j < self.dependencies@.len() && self.dependencies@[j].0@ == n;
                        if n == name@ {
                            assert(j == idx as int);
                        } else {
                            let j0 = choose|j0: int|
                                0 <= j0 < old_list.len() && old_list[j0].0@ == n;
                            assert(j0 == j);
                        }
                    }
                    assert(self.spec_dependencies() =~= before.insert(name@, new_deps));
                }
            },
            None => {
                let ghost old_list = self.dependencies@;
                self.dependencies.push((String::from_str(name), deps));
                proof {
                    assert forall|a: int, b: int|
                        0 <= a < b < self.dependencies@.len() implies self.dependencies@[a].0@
                        != self.dependencies@[b].0@ by {
                        if b < old_list.len() {
                            assert(old_list[a].0@ != old_list[b].0@);
                        } else {
                            assert(old_list[a].0@ != name@);
                        }
                    }
                    assert forall|n: Seq<char>| #[trigger] self.spec_dependencies().contains_key(n)
                        == before.insert(name@, new_deps).contains_key(n) by {
                        if n != name@ {
                            if before.contains_key(n) {
                                let j = choose|j: int|
                                    0 <= j < old_list.len() && old_list[j].0@ == n;
                                assert(self.dependencies@[j].0@ == n);
                            }
                        } else {
                            assert(self.dependencies@[old_list.len() as int].0@ == n);
                        }
                    }
                    assert forall|n: Seq<char>| #[trigger] self.spec_dependencies().contains_key(n)
                        implies self.spec_dependencies()[n] == before.insert(name@, new_deps)[n] by {
                        let j = choose|j: int|
                            0 <= j < self.dependencies@.len() && self.dependencies@[j].0@ == n;
                        if n == name@ {
                            if j < old_list.len() {
                                assert(old_list[j].0@ != name@);
                            }
                            assert(j == old_list.len() as int);
                        } else {
                            let j0 = choose|j0: int|
                                0 <= j0 < old_list.len() && old_list[j0].0@ == n;
                            assert(j0 == j);
                        }
                    }
                    assert(self.spec_dependencies() =~= before.insert(name@, new_deps));
                }
            },
        }
        let ghost prev_systems = self.systems@;
        self.systems.push(String::from_str(name));
        proof {
            assert(string_views(self.systems@) =~= string_views(prev_systems).push(name@));
            assert forall|i: int| 0 <= i < self.systems@.len() implies #[trigger] self.spec_dependencies().contains_key(
                self.systems@[i]@,
            ) by {
                if i < prev_systems.len() {
                    assert(old(self).spec_dependencies().contains_key(prev_systems[i]@));
                }
            }
        }
    }

    fn find_entry(&self, name: &str) -> (r: Option<usize>)
        ensures
            match r {
                Some(i) => i < self.dependencies@.len() && self.dependencies@[i as int].0@ == name@,
                None => forall|j: int|
                    0 <= j < self.dependencies@.len() ==> self.dependencies@[j].0@ != name@,
            },
    {
        let mut i: usize = 0;
        while i < self.dependencies.len()
            invariant
                i <= self.dependencies@.len(),
                forall|j: int| 0 <= j < i ==> self.dependencies@[j].0@ != name@,
            decreases self.dependencies@.len() - i,
        {
            if str_eq(self.dependencies[i].0.as_str(), name) {
                return Some(i);
            }
            i = i + 1;
        }
        None
    }

    /// The recorded dependency names of registered system `i`.
    fn deps_of(&self, i: usize) -> (r: &Vec<String>)
        requires
            self.wf(),
            i < self.spec_systems().len(),
        ensures
            string_views(r@) == self.spec_system_deps()[i as int],
    {
        let ghost name = self.systems@[i as int]@;
        assert(self.spec_dependencies().contains_key(self.systems@[i as int]@));
        match self.find_entry(self.systems[i].as_str()) {
            Some(idx) => {
                proof {
                    let j = choose|j: int|
                        0 <= j < self.dependencies@.len() && self.dependencies@[j].0@ == name;
                    assert(j == idx as int);
                }
                &self.dependencies[idx].1
            },
            None => {
                proof {
                    let j = choose|j: int|
                        0 <= j < self.dependencies@.len() && self.dependencies@[j].0@ == name;
                    assert(self.dependencies@[j].0@ != name);
                }
                &self.dependencies[0].1
            },
        }
    }

    /// Whether registered system `i` depends on registered system `j`.
    fn depends_on(&self, i: usize, j: usize) -> (b: bool)
        requires
            self.wf(),
            i < self.spec_systems().len(),
            j < self.spec_systems().len(),
        ensures
            b == depends_directly(self.spec_systems(), self.spec_system_deps(), i as int, j as int),
    {
        let list = self.deps_of(i);
        let target = self.systems[j].as_str();
        assert(target@ == self.spec_systems()[j as int]);
        let ghost views = string_views(list@);
        let mut k: usize = 0;
        while k < list.len()
            invariant
                k <= list@.len(),
                views == string_views(list@),
                views == self.spec_system_deps()[i as int],
                i < self.spec_systems().len(),
                j < self.spec_systems().len(),
                target@ == self.spec_systems()[j as int],
                forall|m: int| 0 <= m < k ==> views[m] != target@,
            decreases list@.len() - k,
        {
            if str_eq(list[k].as_str(), target) {
                assert(views[k as int] == target@);
                return true;
            }
            k = k + 1;
        }
        false
    }

    /// Whether every registered system that `i` depends on is marked done.
    fn ready(&self, done: &Vec<bool>, i: usize) -> (b: bool)
        requires
            self.wf(),
            i < self.spec_systems().len(),
            done@.len() == self.spec_systems().len(),
        ensures
            b == forall|j: int|
                0 <= j < done@.len() && depends_directly(
                    self.spec_systems(),
                    self.spec_system_deps(),
                    i as int,
                    j,
                ) ==> #[trigger] done@[j],
    {
        let mut j: usize = 0;
        while j < done.len()
            invariant
                self.wf(),
                i < self.spec_systems().len(),
                done@.len() == self.spec_systems().len(),
                j <= done@.len(),
                forall|m: int|
                    0 <= m < j && depends_directly(
                        self.spec_systems(),
                        self.spec_system_deps(),
                        i as int,
                        m,
                    ) ==> #[trigger] done@[m],
            decreases done@.len() - j,
        {
            if !done[j] && self.depends_on(i, j) {
                return false;
            }
            j = j + 1;
        }
        true
    }

    /// Marks system `i` done and appends it to `order` when it is not done
    /// yet and every system it depends on is; reports whether it did.
    fn place_if_ready(&self, done: &mut Vec<bool>, order: &mut Vec<usize>, i: usize) -> (placed: bool)
        requires
            self.wf(),
            i < self.spec_systems().len(),
            placement_inv(self.spec_systems(), self.spec_system_deps(), old(done)@, old(order)@),
        ensures
            placement_inv(self.spec_systems(), self.spec_system_deps(), final(done)@, final(order)@),
            placed == (!old(done)@[i as int] && forall|j: int|
                0 <= j < old(done)@.len() && depends_directly(
                    self.spec_systems(),
                    self.spec_system_deps(),
                    i as int,
                    j,
                ) ==> #[trigger] old(done)@[j]),
            placed ==> final(order)@ == old(order)@.push(i),
            !placed ==> final(order)@ == old(order)@ && final(done)@ == old(done)@,
            !placed ==> (old(done)@[i as int] || exists|j: int|
                0 <= j < old(done)@.len() && !old(done)@[j] && depends_directly(
                    self.spec_systems(),
                    self.spec_system_deps(),
                    i as int,
                    j,
                )),
    {
        let ghost ids = self.spec_systems();
        let ghost deps = self.spec_system_deps();
        let n = self.systems.len();
        if done[i] || !self.ready(done, i) {
            return false;
        }
        let ghost before = order@;
        let ghost done_before = done@;
        proof {
            lemma_count_done_set(done@, i as int);
        }
        done.set(i, true);
        order.push(i);
        proof {
            assert forall|x: int| 0 <= x < n implies (#[trigger] done@[x] <==> order@.contains(
                x as usize,
            )) by {
                vstd::seq_lib::lemma_seq_contains_after_push(before, i, x as usize);
            }
            assert(order@.no_duplicates()) by {
                assert(!before.contains(i));
                assert forall|a: int, b: int| 0 <= a < b < order@.len() implies order@[a]
                    != order@[b] by {
                    if b == before.len() {
                        assert(before[a] == order@[a]);
                        assert(before.contains(before[a]));
                    }
                }
            }
            assert forall|a: int, j: int|
                0 <= a < order@.len() && 0 <= j < n && #[trigger] depends_directly(
                    ids,
                    deps,
                    order@[a] as int,
                    j,
                ) implies placed_before(order@, a, j) by {
                if a < before.len() {
                    assert(order@[a] == before[a]);
                    assert(placed_before(before, a, j));
                    let b = choose|b: int| 0 <= b < a && before[b] as int == j;
                    assert(order@[b] == before[b]);
                } else {
                    assert(done_before[j]);
                    assert(before.contains(j as usize));
                    let b = choose|b: int| 0 <= b < before.len() && before[b] == j as usize;
                    assert(order@[b] == before[b]);
                }
            }
        }
        true
    }

    /// The names of the systems at the positions `order` lists.
    fn names_in_order(&self, order: &Vec<usize>) -> (names: Vec<String>)
        requires
            forall|a: int| 0 <= a < order@.len() ==> #[trigger] order@[a] < self.spec_systems().len(),
        ensures
            string_views(names@) == order@.map_values(|x: usize| x as int).map_values(
                |x: int| self.spec_systems()[x],
            ),
    {
        let ghost ids = self.spec_systems();
        let ghost target = order@.map_values(|x: usize| x as int).map_values(|x: int| ids[x]);
        let mut names: Vec<String> = Vec::new();
        let mut k: usize = 0;
        while k < order.len()
            invariant
                k <= order@.len(),
                ids == self.spec_systems(),
                target == order@.map_values(|x: usize| x as int).map_values(|x: int| ids[x]),
                forall|a: int| 0 <= a < order@.len() ==> #[trigger] order@[a] < ids.len(),
                string_views(names@) == target.subrange(0, k as int),
            decreases order@.len() - k,
        {
            let ghost prev = names@;
            let idx = order[k];
            names.push(self.systems[idx].clone());
            k = k + 1;
            proof {
                assert(string_views(names@) =~= string_views(prev).push(self.systems@[idx as int]@));
                assert(target.subrange(0, k as int) =~= target.subrange(0, k - 1).push(
                    ids[idx as int],
                ));
            }
        }
        proof {
            assert(target.subrange(0, order@.len() as int) =~= target);
        }
        names
    }

    /// Runs the registered systems in an order in which each system comes
    /// after every registered system it depends on (among the systems ready
    /// to run, the earlier registered goes first), and reports their names in
    /// that order. When the dependencies form a cycle no such order exists,
    /// and nothing runs.
    pub fn execute_systems<V>(&mut self, world: &World<V>) -> (r: Result<Vec<String>, String>)
        requires
            old(self).wf(),
        ensures
            *final(self) == *old(self),
            match r {
                Ok(names) => exists|order: Seq<int>|
                    is_execution_order(old(self).spec_systems(), old(self).spec_system_deps(), order)
                        && string_views(names@) == order.map_values(
                        |k: int| old(self).spec_systems()[k],
                    ),
                Err(m) => {
                    &&& m@ == "Circular dependency between systems"@
                    &&& !exists|order: Seq<int>|
                        is_execution_order(
                            old(self).spec_systems(),
                            old(self).spec_system_deps(),
                            order,
                        )
                },
            },
            is_execution_order(
                old(self).spec_systems(),
                old(self).spec_system_deps(),
                Seq::new(old(self).spec_systems().len(), |k: int| k),
            ) ==> (r matches Ok(names) && string_views(names@) == old(self).spec_systems()),
    {
        let ghost ids = self.spec_systems();
        let ghost deps = self.spec_system_deps();
        let n = self.systems.len();
        let mut done: Vec<bool> = Vec::new();
        while done.len() < n
            invariant
                done@.len() <= n,
                forall|x: int| 0 <= x < done@.len() ==> !#[trigger] done@[x],
            decreases n - done@.len(),
        {
            done.push(false);
        }
        let mut order: Vec<usize> = Vec::new();
        proof {
            lemma_count_done_none(done@);
        }
        let mut progress = true;
        let ghost valid = is_execution_order(ids, deps, Seq::new(ids.len(), |k: int| k));
        let ghost mut first = true;
        while progress
            invariant
                self.wf(),
                ids == self.spec_systems(),
                deps == self.spec_system_deps(),
                n == ids.len(),
                placement_inv(ids, deps, done@, order@),
                valid == is_execution_order(ids, deps, Seq::new(ids.len(), |k: int| k)),
                first ==> order@.len() == 0 && progress,
                valid && !first ==> order@ =~= Seq::new(n as nat, |k: int| k as usize),
                !progress ==> forall|x: int|
                    0 <= x < n && !#[trigger] done@[x] ==> exists|j: int|
                        0 <= j < n && !done@[j] && depends_directly(ids, deps, x, j),
            decreases n - order@.len() + (if progress { 1int } else { 0int }),
        {
            proof {
                lemma_count_done_bound(done@);
            }
            progress = false;
            let ghost start_len = order@.len();
            let mut i: usize = 0;
            while i < n
                invariant
                    self.wf(),
                    ids == self.spec_systems(),
                    deps == self.spec_system_deps(),
                    n == ids.len(),
                    i <= n,
                    placement_inv(ids, deps, done@, order@),
                    progress ==> order@.len() > start_len,
                    !progress ==> order@.len() == start_len,
                    !progress ==> forall|x: int|
                        0 <= x < i && !#[trigger] done@[x] ==> exists|j: int|
                            0 <= j < n && !done@[j] && depends_directly(ids, deps, x, j),
                    valid == is_execution_order(ids, deps, Seq::new(ids.len(), |k: int| k)),
                    valid && first ==> order@ =~= Seq::new(i as nat, |k: int| k as usize),
                    valid && first && i > 0 ==> progress,
                    valid && !first ==> order@ =~= Seq::new(n as nat, |k: int| k as usize),
                decreases n - i,
            {
                let ghost before = order@;
                proof {
                    if valid && first {
                        assert forall|j: int|
                            0 <= j < done@.len() && depends_directly(ids, deps, i as int, j) implies #[trigger] done@[j] by {
                            if j >= i {
                                assert(Seq::new(ids.len(), |k: int| k)[i as int] == i);
                                assert(Seq::new(ids.len(), |k: int| k)[j] == j);
                            } else {
                                assert(before[j] == j as usize);
                                assert(order@.contains(j as usize));
                            }
                        }
                        assert(!done@[i as int]) by {
                            if done@[i as int] {
                                assert(order@.contains(i));
                                let b = choose|b: int| 0 <= b < order@.len() && order@[b] == i;
                                assert(order@[b] == b as usize);
                            }
                        }
                    }
                    if valid && !first {
                        assert(order@[i as int] == i);
                        assert(order@.contains(i));
                    }
                }
                if self.place_if_ready(&mut done, &mut order, i) {
                    progress = true;
                }
                i = i + 1;
            }
            proof {
                lemma_count_done_bound(done@);
                first = false;
            }
        }
        let mut all_done = true;
        let mut k: usize = 0;
        while k < n
            invariant
                k <= n,
                done@.len() == n,
                all_done == forall|x: int| 0 <= x < k ==> #[trigger] done@[x],
            decreases n - k,
        {
            if !done[k] {
                all_done = false;
            }
            k = k + 1;
        }
        if !all_done {
            proof {
                lemma_stuck_has_no_order(ids, deps, done@);
            }
            return Err(String::from_str("Circular dependency between systems"));
        }
        let names = self.names_in_order(&order);
        proof {
            lemma_complete_placement_is_order(ids, deps, done@, order@);
            if valid {
                assert(order@.map_values(|x: usize| x as int).map_values(|x: int| ids[x]) =~= ids);
            }
        }
        Ok(names)
    }
}

/// Iterates over the entities that a query matched, in world order.
pub struct EntIt<T> {
    entities: Vec<Entity>,
    index: usize,
    _phantom: PhantomData<T>,
}

impl<T> EntIt<T> {
    /// The matched entities.
    pub closed spec fn spec_entities(&self) -> Seq<Entity> {
        self.entities@
    }

    /// How many entities have been handed out so far.
    pub closed spec fn spec_index(&self) -> nat {
        self.index as nat
    }

    /// The entities still to come.
    pub open spec fn spec_remaining(&self) -> Seq<Entity> {
        self.spec_entities().subrange(self.spec_index() as int, self.spec_entities().len() as int)
    }

    /// The position never passes the end.
    #[verifier::type_invariant]
    spec fn position_in_range(&self) -> bool {
        self.index <= self.entities@.len()
    }

    /// An iterator over `entities`, starting at the first.
    pub fn new(entities: Vec<Entity>) -> (it: Self)
        ensures
            it.spec_entities() == entities@,
            it.spec_index() == 0,
    {
        EntIt { entities, index: 0, _phantom: PhantomData }
    }

    /// The next matched entity, if any is left.
    pub fn next(&mut self) -> (r: Option<Entity>)
        ensures
            old(self).spec_index() <= old(self).spec_entities().len(),
            final(self).spec_entities() == old(self).spec_entities(),
            final(self).spec_index() <= final(self).spec_entities().len(),
            old(self).spec_index() < old(self).spec_entities().len() ==> {
                &&& r == Some(old(self).spec_entities()[old(self).spec_index() as int])
                &&& final(self).spec_index() == old(self).spec_index() + 1
            },
            old(self).spec_index() == old(self).spec_entities().len() ==> {
                &&& r is None
                &&& final(self).spec_index() == old(self).spec_index()
            },
    {
        proof {
            use_type_invariant(&*self);
        }
        if self.index < self.entities.len() {
            let e = self.entities[self.index];
            self.index = self.index + 1;
            Some(e)
        } else {
            None
        }
    }

    /// The number of entities still to come.
    pub fn remaining_count(&self) -> (n: usize)
        ensures
            n == self.spec_remaining().len(),
    {
        proof {
            use_type_invariant(self);
        }
        self.entities.len() - self.index
    }
}

impl<A1: AccessMode, A2: AccessMode> EntIt<(A1, A2)> {
    /// The next matched entity's components of the two queried types, read
    /// from `world`, first type first. The iterator moves on as `next` does;
    /// when that entity lacks one of the components the answer is `None`.
    /// Changes go through `World::get_component_mut`.
    pub fn next_components<'a, V>(&mut self, world: &'a World<V>) -> (r: Option<(Entity, &'a V, &'a V)>)
        ensures
            final(self).spec_entities() == old(self).spec_entities(),
            old(self).spec_index() < old(self).spec_entities().len() ==> {
                let e = old(self).spec_entities()[old(self).spec_index() as int];
                let t1 = A1::spec_component_type_id();
                let t2 = A2::spec_component_type_id();
                &&& final(self).spec_index() == old(self).spec_index() + 1
                &&& if world.spec_has(t1, e) && world.spec_has(t2, e) {
                    r matches Some(item) && item.0 == e && *item.1 == world.spec_components()[t1][e]
                        && *item.2 == world.spec_components()[t2][e]
                } else {
                    r is None
                }
            },
            old(self).spec_index() >= old(self).spec_entities().len() ==> {
                &&& r is None
                &&& final(self).spec_index() == old(self).spec_index()
            },
    {
        match self.next() {
            Some(e) => {
                let c1 = world.get_component(e, A1::component_type_id());
                let c2 = world.get_component(e, A2::component_type_id());
                match (c1, c2) {
                    (Some(a), Some(b)) => Some((e, a, b)),
                    _ => None,
                }
            },
            None => None,
        }
    }

    /// The next matched entity and, for modification in place, its component
    /// of the mutably accessed query type (the first one when both are). The
    /// iterator moves on as `next` does; when that entity lacks one of the
    /// queried components the answer is `None` and the world is left as it is.
    /// Whatever is written through the reference becomes that component.
    pub fn next_component_mut<'a, V>(&mut self, world: &'a mut World<V>) -> (r: Option<(Entity, &'a mut V)>)
        requires
            old(world).wf(),
            A1::spec_is_mutable() || A2::spec_is_mutable(),
        ensures
            final(self).spec_entities() == old(self).spec_entities(),
            final(world).wf(),
            final(world).spec_entities() == old(world).spec_entities(),
            final(world).spec_next_entity() == old(world).spec_next_entity(),
            final(world).spec_schedule() == old(world).spec_schedule(),
            final(world).spec_tracker() == old(world).spec_tracker(),
            old(self).spec_index() < old(self).spec_entities().len() ==> {
                let e = old(self).spec_entities()[old(self).spec_index() as int];
                let t1 = A1::spec_component_type_id();
                let t2 = A2::spec_component_type_id();
                let t = if A1::spec_is_mutable() { t1 } else { t2 };
                &&& final(self).spec_index() == old(self).spec_index() + 1
                &&& if old(world).spec_has(t1, e) && old(world).spec_has(t2, e) {
                    match r {
                        Some((entity, v)) => {
                            &&& entity == e
                            &&& *v == old(world).spec_components()[t][e]
                            &&& final(world).spec_components() == old(world).spec_components().insert(
                                t,
                                old(world).spec_components()[t].insert(e, *final(v)),
                            )
                        },
                        None => false,
                    }
                } else {
                    &&& r is None
                    &&& final(world).spec_components() == old(world).spec_components()
                }
            },
            old(self).spec_index() >= old(self).spec_entities().len() ==> {
                &&& r is None
                &&& final(self).spec_index() == old(self).spec_index()
                &&& final(world).spec_components() == old(world).spec_components()
            },
    {
        match self.next() {
            Some(e) => {
                let t1 = A1::component_type_id();
                let t2 = A2::component_type_id();
                if world.has_component(e, t1) && world.has_component(e, t2) {
                    let t = if A1::is_mutable() {
                        t1
                    } else {
                        t2
                    };
                    match world.get_component_mut(e, t) {
                        Some(v) => Some((e, v)),
                        None => None,
                    }
                } else {
                    None
                }
            },
            None => None,
        }
    }
}

/// The entities, components and systems of a game.
pub struct World<V> {
    next_entity_id: Entity,
    entities: Vec<Entity>,
    component_pools: HashMap<ComponentTypeId, ComponentPool<V>>,
    systems: SystemSchedule,
    debug_tracker: DebugTracker<V>,
}

/// The components after storing `component` as the `type_id` component of `entity`.
pub open spec fn with_component<V>(
    components: Map<ComponentTypeId, Map<Entity, V>>,
    type_id: ComponentTypeId,
    entity: Entity,
    component: V,
) -> Map<ComponentTypeId, Map<Entity, V>> {
    components.insert(
        type_id,
        if components.contains_key(type_id) {
            components[type_id].insert(entity, component)
        } else {
            Map::<Entity, V>::empty().insert(entity, component)
        },
    )
}

/// The components after dropping the `type_id` component of `entity`.
pub open spec fn without_component<V>(
    components: Map<ComponentTypeId, Map<Entity, V>>,
    type_id: ComponentTypeId,
    entity: Entity,
) -> Map<ComponentTypeId, Map<Entity, V>> {
    if components.contains_key(type_id) {
        components.insert(type_id, components[type_id].remove(entity))
    } else {
        components
    }
}

/// `after` holds the same `type_id` component of `entity` as `before`, or
/// neither holds one.
pub open spec fn same_component<V>(
    before: Map<ComponentTypeId, Map<Entity, V>>,
    after: Map<ComponentTypeId, Map<Entity, V>>,
    type_id: ComponentTypeId,
    entity: Entity,
) -> bool {
    &&& has_in(after, type_id, entity) == has_in(before, type_id, entity)
    &&& has_in(before, type_id, entity) ==> after[type_id][entity] == before[type_id][entity]
}

/// A stored component is read back as stored, and storing it touches no
/// other component.
pub proof fn lemma_added_component_read_back<V>(
    components: Map<ComponentTypeId, Map<Entity, V>>,
    type_id: ComponentTypeId,
    entity: Entity,
    component: V,
)
    ensures
        has_in(with_component(components, type_id, entity, component), type_id, entity),
        with_component(components, type_id, entity, component)[type_id][entity] == component,
        forall|t: ComponentTypeId, e: Entity|
            !(t == type_id && e == entity) ==> same_component(
                components,
                #[trigger] with_component(components, type_id, entity, component),
                t,
                e,
            ),
{
}

/// A removed component is gone, and removing it touches no other component.
pub proof fn lemma_removed_component_gone<V>(
    components: Map<ComponentTypeId, Map<Entity, V>>,
    type_id: ComponentTypeId,
    entity: Entity,
)
    ensures
        !has_in(without_component(components, type_id, entity), type_id, entity),
        forall|t: ComponentTypeId, e: Entity|
            !(t == type_id && e == entity) ==> same_component(
                components,
                #[trigger] without_component(components, type_id, entity),
                t,
                e,
            ),
{
}

/// Removing a component that was just added, where there was none before,
/// gives back what every entity had.
pub proof fn lemma_remove_undoes_add<V>(
    components: Map<ComponentTypeId, Map<Entity, V>>,
    type_id: ComponentTypeId,
    entity: Entity,
    component: V,
)
    requires
        !has_in(components, type_id, entity),
    ensures
        forall|t: ComponentTypeId, e: Entity|
            same_component(
                components,
                #[trigger] without_component(
                    with_component(components, type_id, entity, component),
                    type_id,
                    entity,
                ),
                t,
                e,
            ),
{
}

/// Whether `components` holds a component of type `type_id` for `entity`.
pub open spec fn has_in<V>(
    components: Map<ComponentTypeId, Map<Entity, V>>,
    type_id: ComponentTypeId,
    entity: Entity,
) -> bool {
    components.contains_key(type_id) && components[type_id].contains_key(entity)
}

impl<V> World<V> {
    /// The entities created so far, in creation order.
    pub closed spec fn spec_entities(&self) -> Seq<Entity> {
        self.entities@
    }

    /// The id the next created entity gets.
    pub closed spec fn spec_next_entity(&self) -> nat {
        self.next_entity_id as nat
    }

    /// The stored components: for each component type, the component of each entity.
    pub closed spec fn spec_components(&self) -> Map<ComponentTypeId, Map<Entity, V>> {
        Map::new(
            |t: ComponentTypeId| self.component_pools@.contains_key(t),
            |t: ComponentTypeId| self.component_pools@[t]@,
        )
    }

    /// The registered systems and their order.
    pub closed spec fn spec_schedule(&self) -> SystemSchedule {
        self.systems
    }

    /// The tracker recording component changes.
    pub closed spec fn spec_tracker(&self) -> DebugTracker<V> {
        self.debug_tracker
    }

    /// Entity `entity` has a component of type `type_id`.
    pub open spec fn spec_has(&self, type_id: ComponentTypeId, entity: Entity) -> bool {
        has_in(self.spec_components(), type_id, entity)
    }

    /// Entity `entity` has a component of every type in `types`.
    pub open spec fn spec_has_all(&self, types: Seq<ComponentTypeId>, entity: Entity) -> bool {
        forall|k: int| 0 <= k < types.len() ==> self.spec_has(#[trigger] types[k], entity)
    }

    /// Entities are numbered from zero in creation order; the schedule is consistent.
    pub closed spec fn wf(&self) -> bool {
        &&& self.entities@ == Seq::new(self.next_entity_id as nat, |i: int| i as Entity)
        &&& self.systems.wf()
    }

    /// Every created entity's id is its position in creation order.
    pub proof fn lemma_entities_numbered(&self)
        requires
            self.wf(),
        ensures
            self.spec_entities().len() == self.spec_next_entity(),
            forall|i: int| 0 <= i < self.spec_entities().len() ==> #[trigger] self.spec_entities()[i] == i,
            self.spec_schedule().wf(),
    {
    }

    /// An empty world.
    pub fn new() -> (w: Self)
        ensures
            w.wf(),
            w.spec_entities() == Seq::<Entity>::empty(),
            w.spec_next_entity() == 0,
            w.spec_components() == Map::<ComponentTypeId, Map<Entity, V>>::empty(),
            w.spec_schedule().spec_ids() == Seq::<Seq<char>>::empty(),
            !w.spec_tracker().spec_enabled(),
            w.spec_tracker().spec_frame_number() == 0,
            w.spec_tracker().spec_history() == Seq::<crate::diffing::SystemDiffRecord>::empty(),
    {
        let w = World {
            next_entity_id: 0,
            entities: Vec::new(),
            component_pools: HashMap::new(),
            systems: SystemSchedule::new(),
            debug_tracker: DebugTracker::new(),
        };
        proof {
            assert(w.entities@ =~= Seq::new(0, |i: int| i as Entity));
            assert(w.spec_components() =~= Map::<ComponentTypeId, Map<Entity, V>>::empty());
        }
        w
    }

    /// Creates an entity; ids count up from zero.
    pub fn create_entity(&mut self) -> (e: Entity)
        requires
            old(self).wf(),
            old(self).spec_next_entity() < u32::MAX,
        ensures
            final(self).spec_tracker() == old(self).spec_tracker(),
            final(self).wf(),
            e == old(self).spec_next_entity(),
            final(self).spec_next_entity() == old(self).spec_next_entity() + 1,
            final(self).spec_entities() == old(self).spec_entities().push(e),
            final(self).spec_components() == old(self).spec_components(),
            final(self).spec_schedule() == old(self).spec_schedule(),
    {
        let entity = self.next_entity_id;
        self.next_entity_id = self.next_entity_id + 1;
        self.entities.push(entity);
        proof {
            assert(self.entities@ =~= Seq::new(self.next_entity_id as nat, |i: int| i as Entity));
        }
        entity
    }

    /// Stores `component` as the `type_id` component of `entity`, replacing
    /// any earlier one.
    pub fn add_component(&mut self, entity: Entity, type_id: ComponentTypeId, component: V)
        requires
            old(self).wf(),
        ensures
            final(self).spec_tracker() == old(self).spec_tracker(),
            final(self).wf(),
            final(self).spec_entities() == old(self).spec_entities(),
            final(self).spec_next_entity() == old(self).spec_next_entity(),
            final(self).spec_schedule() == old(self).spec_schedule(),
            final(self).spec_components() == with_component(
                old(self).spec_components(),
                type_id,
                entity,
                component,
            ),
    {
        let ghost before = self.spec_components();
        let mut pool = match self.component_pools.remove(&type_id) {
            Some(p) => p,
            None => ComponentPool::new(),
        };
        pool.insert(entity, component);
        self.component_pools.insert(type_id, pool);
        proof {
            assert(self.spec_components() =~= with_component(before, type_id, entity, component));
        }
    }

    /// The `type_id` component of `entity`.
    pub fn get_component(&self, entity: Entity, type_id: ComponentTypeId) -> (r: Option<&V>)
        ensures
            match r {
                Some(v) => self.spec_has(type_id, entity) && *v == self.spec_components()[type_id][entity],
                None => !self.spec_has(type_id, entity),
            },
    {
        match self.component_pools.get(&type_id) {
            Some(pool) => pool.get(entity),
            None => None,
        }
    }

    /// The `type_id` component of `entity`, for modification in place.
    pub fn get_component_mut(&mut self, entity: Entity, type_id: ComponentTypeId) -> (r: Option<&mut V>)
        requires
            old(self).wf(),
        ensures
            final(self).spec_tracker() == old(self).spec_tracker(),
            final(self).wf(),
            final(self).spec_entities() == old(self).spec_entities(),
            final(self).spec_next_entity() == old(self).spec_next_entity(),
            final(self).spec_schedule() == old(self).spec_schedule(),
            match r {
                Some(v) => {
                    &&& old(self).spec_has(type_id, entity)
                    &&& *v == old(self).spec_components()[type_id][entity]
                    &&& final(self).spec_components() == old(self).spec_components().insert(
                        type_id,
                        old(self).spec_components()[type_id].insert(entity, *final(v)),
                    )
                },
                None => !old(self).spec_has(type_id, entity) && final(self).spec_components()
                    == old(self).spec_components(),
            },
    {
        let ghost before = self.spec_components();
        match hash_map_get_mut(&mut self.component_pools, &type_id) {
            Some(pool) => {
                let r = pool.get_mut(entity);
                r
            },
            None => None,
        }
    }

    /// Removes the `type_id` component of `entity`; reports whether there was one.
    pub fn remove_component(&mut self, entity: Entity, type_id: ComponentTypeId) -> (removed: bool)
        requires
            old(self).wf(),
        ensures
            final(self).spec_tracker() == old(self).spec_tracker(),
            final(self).wf(),
            removed == old(self).spec_has(type_id, entity),
            final(self).spec_entities() == old(self).spec_entities(),
            final(self).spec_next_entity() == old(self).spec_next_entity(),
            final(self).spec_schedule() == old(self).spec_schedule(),
            final(self).spec_components() == without_component(
                old(self).spec_components(),
                type_id,
                entity,
            ),
    {
        let ghost before = self.spec_components();
        match self.component_pools.remove(&type_id) {
            Some(mut pool) => {
                let r = pool.remove(entity).is_some();
                self.component_pools.insert(type_id, pool);
                proof {
                    assert(self.spec_components() =~= before.insert(
                        type_id,
                        before[type_id].remove(entity),
                    ));
                }
                r
            },
            None => {
                proof {
                    assert(self.spec_components() =~= before);
                }
                false
            },
        }
    }

    /// Whether `entity` has a component of type `type_id`.
    pub fn has_component(&self, entity: Entity, type_id: ComponentTypeId) -> (b: bool)
        ensures
            b == self.spec_has(type_id, entity),
    {
        match self.component_pools.get(&type_id) {
            Some(pool) => pool.contains(entity),
            None => false,
        }
    }

    fn has_all_components(&self, entity: Entity, component_types: &[ComponentTypeId]) -> (b: bool)
        ensures
            b == self.spec_has_all(component_types@, entity),
    {
        let mut k: usize = 0;
        while k < component_types.len()
            invariant
                k <= component_types@.len(),
                forall|j: int| 0 <= j < k ==> self.spec_has(#[trigger] component_types@[j], entity),
            decreases component_types@.len() - k,
        {
            if !self.has_component(entity, component_types[k]) {
                return false;
            }
            k = k + 1;
        }
        true
    }

    /// The entities, in creation order, that have a component of every
    /// listed type; all entities when the list is empty.
    pub fn entities_with_components(&self, component_types: &[ComponentTypeId]) -> (r: Vec<Entity>)
        ensures
            r@ == self.spec_entities().filter(|e: Entity| self.spec_has_all(component_types@, e)),
    {
        let ghost pred = |e: Entity| self.spec_has_all(component_types@, e);
        let mut result: Vec<Entity> = Vec::new();
        let mut i: usize = 0;
        while i < self.entities.len()
            invariant
                i <= self.entities@.len(),
                pred == (|e: Entity| self.spec_has_all(component_types@, e)),
                result@ == self.entities@.take(i as int).filter(pred),
            decreases self.entities@.len() - i,
        {
            let e = self.entities[i];
            reveal_with_fuel(Seq::<_>::filter, 1);
            proof {
                assert(self.entities@.take(i + 1).drop_last() =~= self.entities@.take(i as int));
            }
            if self.has_all_components(e, component_types) {
                result.push(e);
            }
            i = i + 1;
        }
        proof {
            assert(self.entities@.take(self.entities@.len() as int) =~= self.entities@);
        }
        result
    }

    /// An iterator over the entities that have both queried component types.
    pub fn iter_entities<A1: AccessMode, A2: AccessMode>(&self) -> (it: EntIt<(A1, A2)>)
        ensures
            it.spec_index() == 0,
            it.spec_entities() == self.spec_entities().filter(
                |e: Entity|
                    self.spec_has_all(
                        seq![A1::spec_component_type_id(), A2::spec_component_type_id()],
                        e,
                    ),
            ),
    {
        let mut types: Vec<ComponentTypeId> = Vec::new();
        types.push(A1::component_type_id());
        types.push(A2::component_type_id());
        proof {
            assert(types@ =~= seq![A1::spec_component_type_id(), A2::spec_component_type_id()]);
        }
        EntIt::new(self.entities_with_components(types.as_slice()))
    }

    /// An iterator over the entities that have the queried component type.
    pub fn iter_entities_1<A1: AccessMode>(&self) -> (it: EntIt<(A1,)>)
        ensures
            it.spec_index() == 0,
            it.spec_entities() == self.spec_entities().filter(
                |e: Entity| self.spec_has_all(seq![A1::spec_component_type_id()], e),
            ),
    {
        let mut types: Vec<ComponentTypeId> = Vec::new();
        types.push(A1::component_type_id());
        proof {
            assert(types@ =~= seq![A1::spec_component_type_id()]);
        }
        EntIt::new(self.entities_with_components(types.as_slice()))
    }

    /// An iterator over the entities that have both queried component types.
    pub fn iter_entities_2<A1: AccessMode, A2: AccessMode>(&self) -> (it: EntIt<(A1, A2)>)
        ensures
            it.spec_index() == 0,
            it.spec_entities() == self.spec_entities().filter(
                |e: Entity|
                    self.spec_has_all(
                        seq![A1::spec_component_type_id(), A2::spec_component_type_id()],
                        e,
                    ),
            ),
    {
        self.iter_entities::<A1, A2>()
    }

    /// An iterator over the entities that have all three queried component types.
    pub fn iter_entities_3<A1: AccessMode, A2: AccessMode, A3: AccessMode>(&self) -> (it: EntIt<
        (A1, A2, A3),
    >)
        ensures
            it.spec_index() == 0,
            it.spec_entities() == self.spec_entities().filter(
                |e: Entity|
                    self.spec_has_all(
                        seq![
                            A1::spec_component_type_id(),
                            A2::spec_component_type_id(),
                            A3::spec_component_type_id(),
                        ],
                        e,
                    ),
            ),
    {
        let mut types: Vec<ComponentTypeId> = Vec::new();
        types.push(A1::component_type_id());
        types.push(A2::component_type_id());
        types.push(A3::component_type_id());
        proof {
            assert(types@ =~= seq![
                A1::spec_component_type_id(),
                A2::spec_component_type_id(),
                A3::spec_component_type_id(),
            ]);
        }
        EntIt::new(self.entities_with_components(types.as_slice()))
    }

    /// An iterator over the entities that have all four queried component types.
    pub fn iter_entities_4<A1: AccessMode, A2: AccessMode, A3: AccessMode, A4: AccessMode>(
        &self,
    ) -> (it: EntIt<(A1, A2, A3, A4)>)
        ensures
            it.spec_index() == 0,
            it.spec_entities() == self.spec_entities().filter(
                |e: Entity|
                    self.spec_has_all(
                        seq![
                            A1::spec_component_type_id(),
                            A2::spec_component_type_id(),
                            A3::spec_component_type_id(),
                            A4::spec_component_type_id(),
                        ],
                        e,
                    ),
            ),
    {
        let mut types: Vec<ComponentTypeId> = Vec::new();
        types.push(A1::component_type_id());
        types.push(A2::component_type_id());
        types.push(A3::component_type_id());
        types.push(A4::component_type_id());
        proof {
            assert(types@ =~= seq![
                A1::spec_component_type_id(),
                A2::spec_component_type_id(),
                A3::spec_component_type_id(),
                A4::spec_component_type_id(),
            ]);
        }
        EntIt::new(self.entities_with_components(types.as_slice()))
    }

    /// Registers a system by name and id together with the ids of the systems
    /// it must run after. Dependencies may name systems registered later; a
    /// duplicate id or a dependency cycle is refused and changes nothing.
    pub fn add_single_iterator_system_with_dependencies(
        &mut self,
        system_name: &str,
        system_type_id: SystemTypeId,
        dependencies: Vec<SystemTypeId>,
    ) -> (r: Result<(), DependencyError>)
        requires
            old(self).wf(),
        ensures
            final(self).spec_tracker() == old(self).spec_tracker(),
            final(self).wf(),
            final(self).spec_entities() == old(self).spec_entities(),
            final(self).spec_next_entity() == old(self).spec_next_entity(),
            final(self).spec_components() == old(self).spec_components(),
            ({
                let before = old(self).spec_schedule();
                let after = final(self).spec_schedule();
                let ids = before.spec_ids();
                let deps = before.spec_deps();
                let dv = id_views(dependencies@);
                let unchanged = after.spec_ids() == ids && after.spec_deps() == deps
                    && after.spec_names() == before.spec_names() && after.spec_order()
                    == before.spec_order();
                if ids.contains(system_type_id@) {
                    &&& r matches Err(DependencyError::DuplicateSystem(d)) && d == system_type_id
                    &&& unchanged
                } else if exists|k: int|
                    0 <= k < dv.len() && #[trigger] crate::schedule::closes_cycle(
                        ids,
                        deps,
                        system_type_id@,
                        dv[k],
                    ) {
                    &&& r matches Err(DependencyError::CircularDependency(c)) && exists|k: int|
                        crate::schedule::is_first_cycle_dependency(
                            ids,
                            deps,
                            system_type_id@,
                            dv,
                            k,
                        ) && c@ == seq![system_type_id, dependencies@[k]]
                    &&& unchanged
                } else {
                    &&& r is Ok
                    &&& after.spec_ids() == ids.push(system_type_id@)
                    &&& after.spec_deps() == deps.push(dv)
                    &&& after.spec_names() == before.spec_names().push(system_name@)
                }
            }),
    {
        self.systems.add(system_name, system_type_id, dependencies)
    }

    /// Checks that every dependency names a registered system; reports the
    /// first that does not.
    pub fn finalize_systems(&self) -> (r: Result<(), DependencyError>)
        requires
            self.wf(),
        ensures
            ({
                let ids = self.spec_schedule().spec_ids();
                let deps = self.spec_schedule().spec_deps();
                match r {
                    Ok(()) => forall|i: int, j: int|
                        0 <= i < deps.len() && 0 <= j < deps[i].len() ==> ids.contains(
                            #[trigger] deps[i][j],
                        ),
                    Err(DependencyError::UnknownSystemDependency(d)) => exists|i: int, j: int|
                        0 <= i < deps.len() && 0 <= j < deps[i].len() && deps[i][j] == d@
                            && !ids.contains(d@) && (forall|i2: int, j2: int|
                            0 <= i2 < deps.len() && 0 <= j2 < deps[i2].len() && (i2 < i || (i2
                                == i && j2 < j)) ==> ids.contains(#[trigger] deps[i2][j2])),
                    Err(_) => false,
                }
            }),
    {
        match self.systems.first_unknown_dependency() {
            Some(d) => Err(DependencyError::UnknownSystemDependency(d)),
            None => Ok(()),
        }
    }

    /// The registered system ids in the order they are to run: every system
    /// once, each after all of its registered dependencies.
    pub fn get_system_execution_order(&self) -> (r: Vec<SystemTypeId>)
        requires
            self.wf(),
        ensures
            id_views(r@) == self.spec_schedule().spec_order().map_values(
                |k: int| self.spec_schedule().spec_ids()[k],
            ),
    {
        self.systems.execution_order()
    }

    /// The dependencies registered for the system with id `system_type_id`.
    pub fn get_system_dependencies(&self, system_type_id: &str) -> (r: Option<Vec<SystemTypeId>>)
        requires
            self.wf(),
        ensures
            match r {
                Some(list) => exists|i: int|
                    0 <= i < self.spec_schedule().spec_ids().len()
                        && self.spec_schedule().spec_ids()[i] == system_type_id@ && id_views(
                        list@,
                    ) == self.spec_schedule().spec_deps()[i],
                None => !self.spec_schedule().spec_ids().contains(system_type_id@),
            },
    {
        proof {
            self.systems.lemma_lengths();
        }
        let r = self.systems.dependencies_of(system_type_id);
        proof {
            if r is Some {
                let list = r->0;
                let i = choose|i: int|
                    0 <= i < self.systems.spec_ids().len() && self.systems.spec_ids()[i]
                        == system_type_id@ && id_views(list@) == self.systems.spec_deps()[i];
                assert(self.spec_schedule().spec_ids()[i] == system_type_id@);
            }
        }
        r
    }

    /// The number of registered systems.
    pub fn system_count(&self) -> (n: usize)
        ensures
            n == self.spec_schedule().spec_ids().len(),
    {
        self.systems.len()
    }

    /// Turns change tracking on; nothing else changes.
    pub fn enable_debug_tracking(&mut self)
        ensures
            final(self).spec_tracker().spec_enabled(),
            final(self).spec_tracker().spec_frame_number() == old(self).spec_tracker().spec_frame_number(),
            final(self).spec_tracker().spec_history() == old(self).spec_tracker().spec_history(),
            final(self).spec_tracker().spec_snapshots() == old(self).spec_tracker().spec_snapshots(),
            final(self).spec_entities() == old(self).spec_entities(),
            final(self).spec_next_entity() == old(self).spec_next_entity(),
            final(self).spec_components() == old(self).spec_components(),
            final(self).spec_schedule() == old(self).spec_schedule(),
            old(self).wf() ==> final(self).wf(),
    {
        self.debug_tracker.enable();
    }

    /// Turns change tracking off; nothing else changes.
    pub fn disable_debug_tracking(&mut self)
        ensures
            !final(self).spec_tracker().spec_enabled(),
            final(self).spec_tracker().spec_frame_number() == old(self).spec_tracker().spec_frame_number(),
            final(self).spec_tracker().spec_history() == old(self).spec_tracker().spec_history(),
            final(self).spec_tracker().spec_snapshots() == old(self).spec_tracker().spec_snapshots(),
            final(self).spec_entities() == old(self).spec_entities(),
            final(self).spec_next_entity() == old(self).spec_next_entity(),
            final(self).spec_components() == old(self).spec_components(),
            final(self).spec_schedule() == old(self).spec_schedule(),
            old(self).wf() ==> final(self).wf(),
    {
        self.debug_tracker.disable();
    }

    /// Moves change tracking on to the next frame; nothing else changes.
    pub fn next_frame(&mut self)
        requires
            old(self).spec_tracker().spec_frame_number() < u64::MAX,
        ensures
            final(self).spec_tracker().spec_frame_number() == old(self).spec_tracker().spec_frame_number() + 1,
            final(self).spec_tracker().spec_enabled() == old(self).spec_tracker().spec_enabled(),
            final(self).spec_tracker().spec_history() == old(self).spec_tracker().spec_history(),
            final(self).spec_tracker().spec_snapshots() == old(self).spec_tracker().spec_snapshots(),
            final(self).spec_entities() == old(self).spec_entities(),
            final(self).spec_next_entity() == old(self).spec_next_entity(),
            final(self).spec_components() == old(self).spec_components(),
            final(self).spec_schedule() == old(self).spec_schedule(),
            old(self).wf() ==> final(self).wf(),
    {
        self.debug_tracker.next_frame();
    }

    /// The recorded component changes as text.
    pub fn get_debug_history(&self) -> (r: String)
        ensures
            r@ == history_text(self.spec_tracker().spec_history()),
    {
        self.debug_tracker.get_diff_history_formatted()
    }

    /// Forgets the recorded component changes; nothing else changes.
    pub fn clear_debug_history(&mut self)
        ensures
            final(self).spec_tracker().spec_history() == Seq::<crate::diffing::SystemDiffRecord>::empty(),
            final(self).spec_tracker().spec_enabled() == old(self).spec_tracker().spec_enabled(),
            final(self).spec_tracker().spec_frame_number() == old(self).spec_tracker().spec_frame_number(),
            final(self).spec_tracker().spec_snapshots() == old(self).spec_tracker().spec_snapshots(),
            final(self).spec_entities() == old(self).spec_entities(),
            final(self).spec_next_entity() == old(self).spec_next_entity(),
            final(self).spec_components() == old(self).spec_components(),
            final(self).spec_schedule() == old(self).spec_schedule(),
            old(self).wf() ==> final(self).wf(),
    {
        self.debug_tracker.clear_history();
    }

    /// All entities, in creation order.
    pub fn get_all_entities(&self) -> (r: &Vec<Entity>)
        ensures
            r@ == self.spec_entities(),
    {
        &self.entities
    }
}

} // verus!
