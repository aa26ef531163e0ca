use vstd::prelude::*;
use vstd::string::StringExecFns;
use crate::text::{str_eq, list_contains, id_views};

verus! {

/// Systems are identified by a static name.
pub type SystemTypeId = &'static str;

/// Why a system could not be scheduled.
#[derive(Debug, Clone)]
pub enum DependencyError {
    /// The system would depend on itself; holds the new system and the
    /// dependency through which it would.
    CircularDependency(Vec<SystemTypeId>),
    /// A dependency names a system that was never registered.
    UnknownSystemDependency(SystemTypeId),
    /// A system with the same type id is already registered.
    DuplicateSystem(SystemTypeId),
}

/// One registered system: its display name, its id and the ids it depends on.
pub struct SystemEntry {
    pub name: String,
    pub type_id: SystemTypeId,
    pub dependencies: Vec<SystemTypeId>,
}

/// System `i` lists system `j` among its dependencies.
pub open spec fn depends_directly(
    ids: Seq<Seq<char>>,
    deps: Seq<Seq<Seq<char>>>,
    i: int,
    j: int,
) -> bool {
    deps[i].contains(ids[j])
}

/// A chain of registered systems, each depending on the next.
pub open spec fn is_dependency_path(
    ids: Seq<Seq<char>>,
    deps: Seq<Seq<Seq<char>>>,
    path: Seq<int>,
) -> bool {
    &&& path.len() > 0
    &&& forall|k: int| 0 <= k < path.len() ==> 0 <= #[trigger] path[k] < ids.len()
    &&& forall|k: int|
        0 <= k < path.len() - 1 ==> depends_directly(ids, deps, #[trigger] path[k], path[k + 1])
}

/// System `x` depends, directly or through other registered systems, on a
/// system called `target`.
pub open spec fn depends_on_id(
    ids: Seq<Seq<char>>,
    deps: Seq<Seq<Seq<char>>>,
    x: int,
    target: Seq<char>,
) -> bool {
    exists|path: Seq<int>|
        #[trigger] is_dependency_path(ids, deps, path) && path[0] == x && deps[path.last()].contains(
            target,
        )
}

/// Registering a system called `id` with dependency `dep` would make it
/// depend on itself.
pub open spec fn closes_cycle(
    ids: Seq<Seq<char>>,
    deps: Seq<Seq<Seq<char>>>,
    id: Seq<char>,
    dep: Seq<char>,
) -> bool {
    dep == id || exists|x: int|
        0 <= x < ids.len() && ids[x] == dep && #[trigger] depends_on_id(ids, deps, x, id)
}

/// `order` lists every registered system once, and no system comes before
/// one of its dependencies.
pub open spec fn is_execution_order(
    ids: Seq<Seq<char>>,
    deps: Seq<Seq<Seq<char>>>,
    order: Seq<int>,
) -> bool {
    &&& order.len() == ids.len()
    &&& order.no_duplicates()
    &&& forall|k: int| 0 <= k < order.len() ==> 0 <= #[trigger] order[k] < ids.len()
    &&& forall|x: int| 0 <= x < ids.len() ==> #[trigger] order.contains(x)
    &&& forall|a: int, b: int|
        0 <= a <= b < order.len() ==> !depends_directly(ids, deps, #[trigger] order[a], #[trigger] order[b])
}

/// The first dependency that fails `closes_cycle`, if any.
pub open spec fn is_first_cycle_dependency(
    ids: Seq<Seq<char>>,
    deps: Seq<Seq<Seq<char>>>,
    id: Seq<char>,
    dependencies: Seq<Seq<char>>,
    k: int,
) -> bool {
    &&& 0 <= k < dependencies.len()
    &&& closes_cycle(ids, deps, id, dependencies[k])
    &&& forall|j: int| 0 <= j < k ==> !closes_cycle(ids, deps, id, #[trigger] dependencies[j])
}

/// Unfolds `depends_on_id` by one step.
pub proof fn lemma_depends_on_id_unfold(
    ids: Seq<Seq<char>>,
    deps: Seq<Seq<Seq<char>>>,
    x: int,
    target: Seq<char>,
)
    requires
        0 <= x < ids.len(),
        deps.len() == ids.len(),
    ensures
        depends_on_id(ids, deps, x, target) <==> (deps[x].contains(target) || exists|y: int|
            0 <= y < ids.len() && depends_directly(ids, deps, x, y) && #[trigger] depends_on_id(
                ids,
                deps,
                y,
                target,
            )),
{
    if depends_on_id(ids, deps, x, target) {
        let p = choose|p: Seq<int>|
            #[trigger] is_dependency_path(ids, deps, p) && p[0] == x && deps[p.last()].contains(
                target,
            );
        if p.len() > 1 {
            let q = p.subrange(1, p.len() as int);
            assert forall|k: int| 0 <= k < q.len() - 1 implies depends_directly(
                ids,
                deps,
                #[trigger] q[k],
                q[k + 1],
            ) by {
                assert(q[k] == p[k + 1]);
                assert(q[k + 1] == p[k + 2]);
            }
            assert forall|k: int| 0 <= k < q.len() implies 0 <= #[trigger] q[k] < ids.len() by {
                assert(q[k] == p[k + 1]);
            }
            assert(is_dependency_path(ids, deps, q));
            assert(q.last() == p.last());
            assert(depends_directly(ids, deps, p[0], p[1]));
            assert(depends_on_id(ids, deps, p[1], target));
        }
    }
    if deps[x].contains(target) {
        let p = seq![x];
        assert(is_dependency_path(ids, deps, p));
    }
    if exists|y: int|
        0 <= y < ids.len() && depends_directly(ids, deps, x, y) && #[trigger] depends_on_id(
            ids,
            deps,
            y,
            target,
        ) {
        let y = choose|y: int|
            0 <= y < ids.len() && depends_directly(ids, deps, x, y) && #[trigger] depends_on_id(
                ids,
                deps,
                y,
                target,
            );
        let q = choose|q: Seq<int>|
            #[trigger] is_dependency_path(ids, deps, q) && q[0] == y && deps[q.last()].contains(
                target,
            );
        let p = seq![x] + q;
        assert forall|k: int| 0 <= k < p.len() - 1 implies depends_directly(
            ids,
            deps,
            #[trigger] p[k],
            p[k + 1],
        ) by {
            if k > 0 {
                assert(p[k] == q[k - 1]);
                assert(p[k + 1] == q[k]);
            }
        }
        assert forall|k: int| 0 <= k < p.len() implies 0 <= #[trigger] p[k] < ids.len() by {
            if k > 0 {
                assert(p[k] == q[k - 1]);
            }
        }
        assert(is_dependency_path(ids, deps, p));
        assert(p.last() == q.last());
    }
}

/// Placing a new system after every system that does not depend on it and
/// before every system that does yields an execution order of the larger
/// schedule, provided the new system closes no cycle.
pub proof fn lemma_extended_order(
    ids: Seq<Seq<char>>,
    deps: Seq<Seq<Seq<char>>>,
    order: Seq<int>,
    marked: Seq<bool>,
    before: Seq<int>,
    after: Seq<int>,
    before_src: Seq<int>,
    after_src: Seq<int>,
    id: Seq<char>,
    new_deps: Seq<Seq<char>>,
)
    requires
        is_execution_order(ids, deps, order),
        deps.len() == ids.len(),
        marked.len() == ids.len(),
        forall|x: int| 0 <= x < ids.len() ==> #[trigger] marked[x] == depends_on_id(ids, deps, x, id),
        forall|k: int| 0 <= k < new_deps.len() ==> !closes_cycle(ids, deps, id, #[trigger] new_deps[k]),
        before.len() == before_src.len(),
        after.len() == after_src.len(),
        before.len() + after.len() == ids.len(),
        forall|i: int|
            0 <= i < before.len() ==> 0 <= #[trigger] before_src[i] < ids.len() && before[i]
                == order[before_src[i]] && !marked[before[i]],
        forall|i: int, j: int|
            0 <= i < j < before.len() ==> #[trigger] before_src[i] < #[trigger] before_src[j],
        forall|i: int|
            0 <= i < after.len() ==> 0 <= #[trigger] after_src[i] < ids.len() && after[i]
                == order[after_src[i]] && marked[after[i]],
        forall|i: int, j: int|
            0 <= i < j < after.len() ==> #[trigger] after_src[i] < #[trigger] after_src[j],
        forall|k: int|
            0 <= k < ids.len() ==> before.contains(#[trigger] order[k]) || after.contains(order[k]),
    ensures
        is_execution_order(
            ids.push(id),
            deps.push(new_deps),
            before + seq![ids.len() as int] + after,
        ),
{
    let n = ids.len() as int;
    let ids2 = ids.push(id);
    let deps2 = deps.push(new_deps);
    let o = before + seq![n] + after;
    let nb = before.len() as int;
    assert(o.len() == n + 1);
    assert forall|k: int| 0 <= k < o.len() implies 0 <= #[trigger] o[k] < ids2.len() by {
        if k < nb {
            assert(o[k] == before[k]);
            assert(0 <= before_src[k] < n);
        } else if k > nb {
            assert(o[k] == after[k - nb - 1]);
            assert(0 <= after_src[k - nb - 1] < n);
        }
    }
    assert forall|x: int| 0 <= x < ids2.len() implies #[trigger] o.contains(x) by {
        if x == n {
            assert(o[nb] == n);
        } else {
            assert(order.contains(x));
            let k = choose|k: int| 0 <= k < order.len() && order[k] == x;
            if before.contains(order[k]) {
                let i = choose|i: int| 0 <= i < before.len() && before[i] == order[k];
                assert(o[i] == x);
            } else {
                assert(after.contains(order[k]));
                let i = choose|i: int| 0 <= i < after.len() && after[i] == order[k];
                assert(o[nb + 1 + i] == x);
            }
        }
    }
    assert forall|i: int, j: int| 0 <= i < j < o.len() implies o[i] != o[j] by {
        if j < nb {
            assert(before_src[i] < before_src[j]);
            assert(order[before_src[i]] != order[before_src[j]]);
        } else if j == nb {
            assert(o[i] == before[i]);
            assert(0 <= before_src[i] < n);
        } else if i < nb {
            assert(o[i] == before[i]);
            assert(o[j] == after[j - nb - 1]);
            assert(0 <= before_src[i] < n);
            assert(0 <= after_src[j - nb - 1] < n);
            assert(!marked[before[i]]);
            assert(marked[after[j - nb - 1]]);
        } else if i == nb {
            assert(o[j] == after[j - nb - 1]);
            assert(0 <= after_src[j - nb - 1] < n);
        } else {
            assert(o[i] == after[i - nb - 1]);
            assert(o[j] == after[j - nb - 1]);
            assert(after_src[i - nb - 1] < after_src[j - nb - 1]);
            assert(order[after_src[i - nb - 1]] != order[after_src[j - nb - 1]]);
        }
    }
    assert(o.no_duplicates());
    assert forall|p: int, q: int|
        0 <= p <= q < o.len() implies !depends_directly(ids2, deps2, #[trigger] o[p], #[trigger] o[q]) by {
        if q < nb {
            assert(o[p] == before[p] && o[q] == before[q]);
            if p < q {
                assert(before_src[p] < before_src[q]);
            }
            assert(!depends_directly(ids, deps, order[before_src[p]], order[before_src[q]]));
        } else if q == nb {
            if p < nb {
                let u = before[p];
                assert(0 <= before_src[p] < n);
                assert(0 <= u < n);
                if depends_directly(ids2, deps2, u, n) {
                    assert(deps[u].contains(id));
                    lemma_depends_on_id_unfold(ids, deps, u, id);
                    assert(marked[u]);
                }
            } else {
                if depends_directly(ids2, deps2, n, n) {
                    let k = choose|k: int| 0 <= k < new_deps.len() && new_deps[k] == id;
                    assert(closes_cycle(ids, deps, id, new_deps[k]));
                }
            }
        } else {
            let v = after[q - nb - 1];
            assert(o[q] == v);
            assert(0 <= after_src[q - nb - 1] < n);
            assert(0 <= v < n);
            assert(marked[v]);
            if p < nb {
                let u = before[p];
                assert(o[p] == u);
                assert(0 <= before_src[p] < n);
                if depends_directly(ids2, deps2, u, v) {
                    assert(depends_directly(ids, deps, u, v));
                    lemma_depends_on_id_unfold(ids, deps, u, id);
                    assert(marked[u]);
                }
            } else if p == nb {
                if depends_directly(ids2, deps2, n, v) {
                    let k = choose|k: int| 0 <= k < new_deps.len() && new_deps[k] == ids[v];
                    assert(closes_cycle(ids, deps, id, new_deps[k]));
                }
            } else {
                let u = after[p - nb - 1];
                assert(o[p] == u);
                if p < q {
                    assert(after_src[p - nb - 1] < after_src[q - nb - 1]);
                }
                assert(!depends_directly(
                    ids,
                    deps,
                    order[after_src[p - nb - 1]],
                    order[after_src[q - nb - 1]],
                ));
                assert(0 <= after_src[p - nb - 1] < n);
            }
        }
    }
}

/// The registered systems, kept in an order that respects their dependencies.
pub struct SystemSchedule {
    systems: Vec<SystemEntry>,
    order: Vec<usize>,
}

impl SystemSchedule {
    /// The ids of the registered systems, in registration order.
    pub closed spec fn spec_ids(&self) -> Seq<Seq<char>> {
        self.systems@.map_values(|e: SystemEntry| e.type_id@)
    }

    /// The dependency ids of each registered system, in registration order.
    pub closed spec fn spec_deps(&self) -> Seq<Seq<Seq<char>>> {
        self.systems@.map_values(|e: SystemEntry| id_views(e.dependencies@))
    }

    /// The display names of the registered systems, in registration order.
    pub closed spec fn spec_names(&self) -> Seq<Seq<char>> {
        self.systems@.map_values(|e: SystemEntry| e.name@)
    }

    /// The execution order, as registration indices.
    pub closed spec fn spec_order(&self) -> Seq<int> {
        self.order@.map_values(|k: usize| k as int)
    }

    /// Ids are unique and the kept order is an execution order.
    pub closed spec fn wf(&self) -> bool {
        &&& self.spec_ids().no_duplicates()
        &&& is_execution_order(self.spec_ids(), self.spec_deps(), self.spec_order())
    }

    /// The kept order runs every system once, after all of its dependencies.
    pub proof fn lemma_order_respects_dependencies(&self)
        requires
            self.wf(),
        ensures
            is_execution_order(self.spec_ids(), self.spec_deps(), self.spec_order()),
            self.spec_ids().no_duplicates(),
    {
    }

    /// Ids, dependency lists and names are kept for every registered system.
    pub proof fn lemma_lengths(&self)
        ensures
            self.spec_deps().len() == self.spec_ids().len(),
            self.spec_names().len() == self.spec_ids().len(),
    {
    }

    /// An empty schedule.
    pub fn new() -> (s: Self)
        ensures
            s.wf(),
            s.spec_ids() == Seq::<Seq<char>>::empty(),
            s.spec_deps() == Seq::<Seq<Seq<char>>>::empty(),
            s.spec_names() == Seq::<Seq<char>>::empty(),
            s.spec_order() == Seq::<int>::empty(),
    {
        let s = SystemSchedule { systems: Vec::new(), order: Vec::new() };
        proof {
            assert(s.spec_ids() =~= Seq::<Seq<char>>::empty());
            assert(s.spec_deps() =~= Seq::<Seq<Seq<char>>>::empty());
            assert(s.spec_names() =~= Seq::<Seq<char>>::empty());
            assert(s.spec_order() =~= Seq::<int>::empty());
        }
        s
    }

    /// The number of registered systems.
    pub fn len(&self) -> (n: usize)
        ensures
            n == self.spec_ids().len(),
    {
        self.systems.len()
    }

    /// The registration index of the system called `id`.
    pub fn find(&self, id: &str) -> (r: Option<usize>)
        requires
            self.wf(),
        ensures
            match r {
                Some(i) => i < self.spec_ids().len() && self.spec_ids()[i as int] == id@,
                None => !self.spec_ids().contains(id@),
            },
    {
        let mut i: usize = 0;
        while i < self.systems.len()
            invariant
                i <= self.systems@.len(),
                forall|j: int| 0 <= j < i ==> self.spec_ids()[j] != id@,
            decreases self.systems@.len() - i,
        {
            if str_eq(self.systems[i].type_id, id) {
                return Some(i);
            }
            i = i + 1;
        }
        None
    }

    /// The dependencies registered for the system called `id`.
    pub fn dependencies_of(&self, id: &str) -> (r: Option<Vec<SystemTypeId>>)
        requires
            self.wf(),
        ensures
            match r {
                Some(list) => exists|i: int|
                    0 <= i < self.spec_ids().len() && self.spec_ids()[i] == id@ && id_views(list@)
                        == self.spec_deps()[i],
                None => !self.spec_ids().contains(id@),
            },
    {
        match self.find(id) {
            Some(i) => {
                let deps = &self.systems[i].dependencies;
                let mut list: Vec<SystemTypeId> = Vec::new();
                let mut k: usize = 0;
                while k < deps.len()
                    invariant
                        k <= deps@.len(),
                        list@ == deps@.subrange(0, k as int),
                    decreases deps@.len() - k,
                {
                    list.push(deps[k]);
                    k = k + 1;
                    proof {
                        assert(list@ =~= deps@.subrange(0, k as int));
                    }
                }
                proof {
                    assert(list@ =~= deps@);
                    assert(id_views(list@) == self.spec_deps()[i as int]);
                }
                Some(list)
            },
            None => None,
        }
    }

    /// Whether system `x` lists a system that is marked.
    fn depends_on_marked(&self, x: usize, marked: &Vec<bool>) -> (r: bool)
        requires
            self.wf(),
            x < self.spec_ids().len(),
            marked@.len() == self.spec_ids().len(),
        ensures
            r == exists|y: int|
                0 <= y < self.spec_ids().len() && depends_directly(
                    self.spec_ids(),
                    self.spec_deps(),
                    x as int,
                    y,
                ) && #[trigger] marked@[y],
    {
        let ghost ids = self.spec_ids();
        let ghost deps = self.spec_deps();
        let list = &self.systems[x].dependencies;
        proof {
            assert(deps[x as int] == id_views(list@));
        }
        let mut i: usize = 0;
        while i < list.len()
            invariant
                self.wf(),
                ids == self.spec_ids(),
                deps == self.spec_deps(),
                x < ids.len(),
                deps[x as int] == id_views(list@),
                marked@.len() == ids.len(),
                i <= list@.len(),
                forall|j: int, y: int|
                    0 <= j < i && 0 <= y < ids.len() && ids[y] == #[trigger] id_views(list@)[j]
                        ==> !#[trigger] marked@[y],
            decreases list@.len() - i,
        {
            match self.find(list[i]) {
                Some(y) => {
                    if marked[y] {
                        proof {
                            assert(id_views(list@)[i as int] == ids[y as int]);
                            assert(depends_directly(ids, deps, x as int, y as int));
                        }
                        return true;
                    }
                    proof {
                        assert forall|y2: int|
                            0 <= y2 < ids.len() && ids[y2] == id_views(list@)[i as int] implies !marked@[y2] by {
                            assert(ids[y2] == ids[y as int]);
                            if y2 != y as int {
                                assert(ids.no_duplicates());
                            }
                        }
                    }
                },
                None => {
                    proof {
                        assert forall|y2: int|
                            0 <= y2 < ids.len() && ids[y2] == id_views(list@)[i as int] implies !marked@[y2] by {
                            assert(ids.contains(ids[y2]));
                        }
                    }
                },
            }
            i = i + 1;
        }
        proof {
            if exists|y: int|
                0 <= y < ids.len() && depends_directly(ids, deps, x as int, y) && #[trigger] marked@[y] {
                let y = choose|y: int|
                    0 <= y < ids.len() && depends_directly(ids, deps, x as int, y) && #[trigger] marked@[y];
                let j = choose|j: int| 0 <= j < deps[x as int].len() && deps[x as int][j] == ids[y];
                assert(id_views(list@)[j] == ids[y]);
            }
        }
        false
    }

    /// For every registered system, whether it depends (directly or not) on
    /// a system called `target`.
    fn ancestors_of(&self, target: &str) -> (marked: Vec<bool>)
        requires
            self.wf(),
        ensures
            marked@.len() == self.spec_ids().len(),
            forall|x: int|
                0 <= x < self.spec_ids().len() ==> #[trigger] marked@[x] == depends_on_id(
                    self.spec_ids(),
                    self.spec_deps(),
                    x,
                    target@,
                ),
    {
        let ghost ids = self.spec_ids();
        let ghost deps = self.spec_deps();
        let ghost order = self.spec_order();
        let n = self.systems.len();
        let mut marked: Vec<bool> = Vec::new();
        let mut i: usize = 0;
        while i < n
            invariant
                n == ids.len(),
                i <= n,
                marked@.len() == i,
                forall|j: int| 0 <= j < i ==> marked@[j] == false,
            decreases n - i,
        {
            marked.push(false);
            i = i + 1;
        }
        let mut k: usize = 0;
        while k < n
            invariant
                self.wf(),
                ids == self.spec_ids(),
                deps == self.spec_deps(),
                order == self.spec_order(),
                n == ids.len(),
                deps.len() == n,
                k <= n,
                marked@.len() == n,
                forall|j: int|
                    0 <= j < k ==> marked@[#[trigger] order[j]] == depends_on_id(ids, deps, order[j], target@),
                forall|j: int| k <= j < n ==> marked@[#[trigger] order[j]] == false,
            decreases n - k,
        {
            let x = self.order[k];
            proof {
                assert(order[k as int] == x as int);
                assert(0 <= order[k as int] < n);
            }
            let direct = list_contains(&self.systems[x].dependencies, target);
            proof {
                assert(deps[x as int] == id_views(self.systems@[x as int].dependencies@));
            }
            let via = if direct {
                true
            } else {
                self.depends_on_marked(x, &marked)
            };
            proof {
                lemma_depends_on_id_unfold(ids, deps, x as int, target@);
                assert forall|y: int|
                    0 <= y < n && depends_directly(ids, deps, x as int, y) implies marked@[y]
                    == depends_on_id(ids, deps, y, target@) by {
                    assert(order.contains(y));
                    let j = choose|j: int| 0 <= j < order.len() && order[j] == y;
                    if k <= j {
                        assert(!depends_directly(ids, deps, order[k as int], order[j]));
                    }
                }
                if !direct {
                    if via {
                        let y = choose|y: int|
                            0 <= y < n && depends_directly(ids, deps, x as int, y)
                                && #[trigger] marked@[y];
                        assert(depends_on_id(ids, deps, y, target@));
                    }
                    if depends_on_id(ids, deps, x as int, target@) {
                        let y = choose|y: int|
                            0 <= y < n && depends_directly(ids, deps, x as int, y)
                                && #[trigger] depends_on_id(ids, deps, y, target@);
                        assert(marked@[y]);
                    }
                }
                assert(via == depends_on_id(ids, deps, x as int, target@));
            }
            let ghost before = marked@;
            marked.set(x, via);
            proof {
                assert forall|j: int| 0 <= j < k + 1 implies marked@[#[trigger] order[j]]
                    == depends_on_id(ids, deps, order[j], target@) by {
                    if j < k {
                        assert(order[j] != order[k as int]);
                        assert(marked@[order[j]] == before[order[j]]);
                    }
                }
                assert forall|j: int| k + 1 <= j < n implies marked@[#[trigger] order[j]] == false by {
                    assert(order[j] != order[k as int]);
                }
            }
            k = k + 1;
        }
        proof {
            assert forall|x: int| 0 <= x < n implies #[trigger] marked@[x] == depends_on_id(
                ids,
                deps,
                x,
                target@,
            ) by {
                assert(order.contains(x));
                let j = choose|j: int| 0 <= j < order.len() && order[j] == x;
            }
        }
        marked
    }

    /// Registers a system called `type_id`, displayed as `name`, that depends on
    /// `dependencies`. Dependencies may name systems registered later. A
    /// duplicate id, or a dependency through which the system would depend on
    /// itself, is refused and leaves the schedule unchanged.
    pub fn add(&mut self, name: &str, type_id: SystemTypeId, dependencies: Vec<SystemTypeId>) -> (r:
        Result<(), DependencyError>)
        requires
            old(self).wf(),
        ensures
            final(self).wf(),
            ({
                let ids = old(self).spec_ids();
                let deps = old(self).spec_deps();
                let dv = id_views(dependencies@);
                let unchanged = final(self).spec_ids() == ids && final(self).spec_deps() == deps
                    && final(self).spec_names() == old(self).spec_names()
                    && final(self).spec_order() == old(self).spec_order();
                if ids.contains(type_id@) {
                    &&& r matches Err(DependencyError::DuplicateSystem(d)) && d == type_id
                    &&& unchanged
                } else if exists|k: int|
                    0 <= k < dv.len() && #[trigger] closes_cycle(ids, deps, type_id@, dv[k]) {
                    &&& r matches Err(DependencyError::CircularDependency(c)) && exists|k: int|
                        is_first_cycle_dependency(ids, deps, type_id@, dv, k) && c@ == seq![
                            type_id,
                            dependencies@[k],
                        ]
                    &&& unchanged
                } else {
                    &&& r is Ok
                    &&& final(self).spec_ids() == ids.push(type_id@)
                    &&& final(self).spec_deps() == deps.push(dv)
                    &&& final(self).spec_names() == old(self).spec_names().push(name@)
                }
            }),
    {
        let ghost ids = self.spec_ids();
        let ghost deps = self.spec_deps();
        let ghost order = self.spec_order();
        let ghost dv = id_views(dependencies@);
        if self.find(type_id).is_some() {
            return Err(DependencyError::DuplicateSystem(type_id));
        }
        let marked = self.ancestors_of(type_id);
        let mut k: usize = 0;
        while k < dependencies.len()
            invariant
                self.wf(),
                ids == self.spec_ids(),
                deps == self.spec_deps(),
                dv == id_views(dependencies@),
                !ids.contains(type_id@),
                marked@.len() == ids.len(),
                forall|x: int|
                    0 <= x < ids.len() ==> #[trigger] marked@[x] == depends_on_id(ids, deps, x, type_id@),
                k <= dependencies@.len(),
                forall|j: int| 0 <= j < k ==> !closes_cycle(ids, deps, type_id@, #[trigger] dv[j]),
            decreases dependencies@.len() - k,
        {
            let d = dependencies[k];
            let closing = if str_eq(d, type_id) {
                true
            } else {
                match self.find(d) {
                    Some(y) => marked[y],
                    None => false,
                }
            };
            proof {
                assert(dv[k as int] == d@);
                if closing && d@ != type_id@ {
                    let y = choose|y: int| 0 <= y < ids.len() && ids[y] == d@ && marked@[y];
                    assert(depends_on_id(ids, deps, y, type_id@));
                }
                if !closing && d@ != type_id@ {
                    assert forall|x: int| 0 <= x < ids.len() && ids[x] == d@ implies !depends_on_id(
                        ids,
                        deps,
                        x,
                        type_id@,
                    ) by {
                        assert(ids.contains(d@));
                        assert(!marked@[x]);
                    }
                }
                assert(closing == closes_cycle(ids, deps, type_id@, d@));
            }
            if closing {
                let mut cycle: Vec<SystemTypeId> = Vec::new();
                cycle.push(type_id);
                cycle.push(d);
                proof {
                    assert(!ids.contains(type_id@));
                    assert(closes_cycle(ids, deps, type_id@, dv[k as int]));
                    assert(is_first_cycle_dependency(ids, deps, type_id@, dv, k as int));
                    assert(cycle@ =~= seq![type_id, dependencies@[k as int]]);
                }
                return Err(DependencyError::CircularDependency(cycle));
            }
            k = k + 1;
        }
        let n = self.systems.len();
        let mut before: Vec<usize> = Vec::new();
        let mut after: Vec<usize> = Vec::new();
        let ghost mut before_src: Seq<int> = Seq::empty();
        let ghost mut after_src: Seq<int> = Seq::empty();
        let mut k: usize = 0;
        while k < n
            invariant
                self.wf(),
                ids == self.spec_ids(),
                deps == self.spec_deps(),
                order == self.spec_order(),
                n == ids.len(),
                k <= n,
                marked@.len() == n,
                before@.len() == before_src.len(),
                after@.len() == after_src.len(),
                before@.len() + after@.len() == k,
                forall|i: int|
                    0 <= i < before@.len() ==> 0 <= #[trigger] before_src[i] < k && before@[i] as int
                        == order[before_src[i]] && !marked@[before@[i] as int],
                forall|i: int, j: int|
                    0 <= i < j < before@.len() ==> #[trigger] before_src[i] < #[trigger] before_src[j],
                forall|i: int|
                    0 <= i < after@.len() ==> 0 <= #[trigger] after_src[i] < k && after@[i] as int
                        == order[after_src[i]] && marked@[after@[i] as int],
                forall|i: int, j: int|
                    0 <= i < j < after@.len() ==> #[trigger] after_src[i] < #[trigger] after_src[j],
                forall|j: int|
                    0 <= j < k ==> before@.contains(#[trigger] self.order@[j]) || after@.contains(
                        self.order@[j],
                    ),
            decreases n - k,
        {
            let x = self.order[k];
            proof {
                assert(order[k as int] == x as int);
                assert(0 <= order[k as int] < n);
            }
            let ghost prev_before = before@;
            let ghost prev_after = after@;
            if marked[x] {
                after.push(x);
                proof {
                    after_src = after_src.push(k as int);
                    assert(after@[after@.len() - 1] == x);
                }
            } else {
                before.push(x);
                proof {
                    before_src = before_src.push(k as int);
                    assert(before@[before@.len() - 1] == x);
                }
            }
            proof {
                assert forall|j: int| 0 <= j < k + 1 implies before@.contains(
                    #[trigger] self.order@[j],
                ) || after@.contains(self.order@[j]) by {
                    if j == k {
                        if marked@[x as int] {
                            assert(after@[after@.len() - 1] == x);
                        } else {
                            assert(before@[before@.len() - 1] == x);
                        }
                    } else if prev_before.contains(self.order@[j]) {
                        let t = choose|t: int|
                            0 <= t < prev_before.len() && prev_before[t] == self.order@[j];
                        assert(before@[t] == prev_before[t]);
                    } else {
                        let t = choose|t: int|
                            0 <= t < prev_after.len() && prev_after[t] == self.order@[j];
                        assert(after@[t] == prev_after[t]);
                    }
                }
            }
            k = k + 1;
        }
        let ghost before_seq = before@.map_values(|v: usize| v as int);
        let ghost after_seq = after@.map_values(|v: usize| v as int);
        let mut new_order = before;
        new_order.push(n);
        let mut i: usize = 0;
        while i < after.len()
            invariant
                new_order@.map_values(|v: usize| v as int) == before_seq + seq![n as int]
                    + after_seq.subrange(0, i as int),
                after_seq == after@.map_values(|v: usize| v as int),
                i <= after@.len(),
            decreases after@.len() - i,
        {
            let ghost prev = new_order@;
            new_order.push(after[i]);
            i = i + 1;
            proof {
                assert(new_order@ == prev.push(after@[i - 1]));
                assert(prev.map_values(|v: usize| v as int).len() == prev.len());
                assert forall|j: int| 0 <= j < new_order@.len() implies new_order@.map_values(
                    |v: usize| v as int,
                )[j] == (before_seq + seq![n as int] + after_seq.subrange(0, i as int))[j] by {
                    if j < prev.len() {
                        assert(new_order@[j] == prev[j]);
                        assert(prev.map_values(|v: usize| v as int)[j] == (before_seq + seq![
                            n as int,
                        ] + after_seq.subrange(0, i - 1))[j]);
                    }
                }
                assert(new_order@.map_values(|v: usize| v as int) =~= before_seq + seq![n as int]
                    + after_seq.subrange(0, i as int));
            }
        }
        proof {
            assert(after_seq.subrange(0, after@.len() as int) =~= after_seq);
            assert forall|j: int| 0 <= j < ids.len() implies before_seq.contains(
                #[trigger] order[j],
            ) || after_seq.contains(order[j]) by {
                assert(order[j] == self.order@[j] as int);
                if before@.contains(self.order@[j]) {
                    let t = choose|t: int| 0 <= t < before@.len() && before@[t] == self.order@[j];
                    assert(before_seq[t] == order[j]);
                } else {
                    let t = choose|t: int| 0 <= t < after@.len() && after@[t] == self.order@[j];
                    assert(after_seq[t] == order[j]);
                }
            }
            lemma_extended_order(
                ids,
                deps,
                order,
                marked@,
                before_seq,
                after_seq,
                before_src,
                after_src,
                type_id@,
                dv,
            );
        }
        let entry = SystemEntry { name: String::from_str(name), type_id, dependencies };
        self.systems.push(entry);
        self.order = new_order;
        proof {
            assert(self.spec_ids() =~= ids.push(type_id@));
            assert(self.spec_deps() =~= deps.push(dv));
            assert(self.spec_order() =~= before_seq + seq![n as int] + after_seq);
            assert(self.spec_names() =~= old(self).spec_names().push(name@));
        }
        Ok(())
    }

    /// The first dependency, in registration order and then in listed order,
    /// that names no registered system.
    pub fn first_unknown_dependency(&self) -> (r: Option<SystemTypeId>)
        requires
            self.wf(),
        ensures
            match r {
                None => forall|i: int, j: int|
                    0 <= i < self.spec_deps().len() && 0 <= j < self.spec_deps()[i].len()
                        ==> self.spec_ids().contains(#[trigger] self.spec_deps()[i][j]),
                Some(d) => exists|i: int, j: int|
                    0 <= i < self.spec_deps().len() && 0 <= j < self.spec_deps()[i].len()
                        && self.spec_deps()[i][j] == d@ && !self.spec_ids().contains(d@) && (
                    forall|i2: int, j2: int|
                        0 <= i2 < self.spec_deps().len() && 0 <= j2 < self.spec_deps()[i2].len()
                            && (i2 < i || (i2 == i && j2 < j)) ==> self.spec_ids().contains(
                            #[trigger] self.spec_deps()[i2][j2],
                        )),
            },
    {
        let ghost ids = self.spec_ids();
        let ghost deps = self.spec_deps();
        let mut i: usize = 0;
        while i < self.systems.len()
            invariant
                self.wf(),
                ids == self.spec_ids(),
                deps == self.spec_deps(),
                i <= deps.len(),
                forall|i2: int, j2: int|
                    0 <= i2 < i && 0 <= j2 < deps[i2].len() ==> ids.contains(#[trigger] deps[i2][j2]),
            decreases deps.len() - i,
        {
            let list = &self.systems[i].dependencies;
            proof {
                assert(deps[i as int] == id_views(list@));
            }
            let mut j: usize = 0;
            while j < list.len()
                invariant
                    self.wf(),
                    ids == self.spec_ids(),
                    deps == self.spec_deps(),
                    i < deps.len(),
                    deps[i as int] == id_views(list@),
                    j <= list@.len(),
                    forall|i2: int, j2: int|
                        0 <= i2 < i && 0 <= j2 < deps[i2].len() ==> ids.contains(
                            #[trigger] deps[i2][j2],
                        ),
                    forall|j2: int| 0 <= j2 < j ==> ids.contains(#[trigger] deps[i as int][j2]),
                decreases list@.len() - j,
            {
                let d = list[j];
                proof {
                    assert(deps[i as int][j as int] == d@);
                }
                match self.find(d) {
                    None => {
                        return Some(d);
                    },
                    Some(_) => {},
                }
                j = j + 1;
            }
            i = i + 1;
        }
        None
    }

    /// The ids of the registered systems in the order they are to run.
    pub fn execution_order(&self) -> (r: Vec<SystemTypeId>)
        requires
            self.wf(),
        ensures
            id_views(r@) == self.spec_order().map_values(|k: int| self.spec_ids()[k]),
    {
        let ghost target = self.spec_order().map_values(|k: int| self.spec_ids()[k]);
        let mut r: Vec<SystemTypeId> = Vec::new();
        let mut k: usize = 0;
        while k < self.order.len()
            invariant
                self.wf(),
                target == self.spec_order().map_values(|k: int| self.spec_ids()[k]),
                k <= self.order@.len(),
                id_views(r@) == target.subrange(0, k as int),
            decreases self.order@.len() - k,
        {
            let idx = self.order[k];
            proof {
                assert(0 <= self.spec_order()[k as int]);
                assert(self.spec_order()[k as int] == idx as int);
                assert(target[k as int] == self.spec_ids()[idx as int]);
                assert(self.spec_ids()[idx as int] == self.systems@[idx as int].type_id@);
            }
            let ghost prev = r@;
            let item = self.systems[idx].type_id;
            r.push(item);
            k = k + 1;
            proof {
                assert(id_views(prev).len() == prev.len());
                assert(prev.len() == k - 1);
                assert(r@ == prev.push(item));
                assert forall|j: int| 0 <= j < k implies id_views(r@)[j] == target.subrange(
                    0,
                    k as int,
                )[j] by {
                    if j < k - 1 {
                        assert(r@[j] == prev[j]);
                        assert(id_views(prev)[j] == target.subrange(0, k - 1)[j]);
                    }
                }
                assert(id_views(r@) =~= target.subrange(0, k as int));
            }
        }
        proof {
            assert(id_views(r@) =~= target);
        }
        r
    }
}

} // verus!
