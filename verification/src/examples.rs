use vstd::prelude::*;
use crate::ecs::{Component, ComponentTypeId};
use crate::text::signed_decimal_text;
use vstd::string::{StrSliceExecFns, StringExecFns};
use crate::diffing::{
    Change,
    Diffable,
    PropertyDiff,
    apply_i32_change,
    changes_of,
    diff_view,
    field_changes,
    field_step_i32,
    i32_parser,
    ron_parsed_i32,
    first_parsed,
    push_field_changes,
};

verus! {

/// The id under which health components are stored.
pub const HEALTH_COMPONENT: ComponentTypeId = 3;

/// Applying the first `n` changes to a health value, and whether any applied.
pub open spec fn health_applied(h: Health, changes: Seq<Change>, n: nat) -> (Health, bool)
    decreases n,
{
    if n == 0 {
        (h, false)
    } else {
        let before = health_applied(h, changes, (n - 1) as nat);
        let c = changes[n - 1];
        let current = field_step_i32(before.0.current, "current"@, c);
        let max = field_step_i32(before.0.max, "max"@, c);
        ((Health { current: current.0, max: max.0 }), before.1 || current.1 || max.1)
    }
}

/// Hit points of an entity.
#[derive(Debug, Clone, Copy)]
pub struct Health {
    pub current: i32,
    pub max: i32,
}

impl Health {
    /// Full health of `max` points.
    pub fn new(max: i32) -> (h: Self)
        ensures
            h.current == max,
            h.max == max,
    {
        Health { current: max, max }
    }

    /// Loses `amount` points, not going below zero.
    pub fn damage(&mut self, amount: i32)
        requires
            i32::MIN <= old(self).current - amount <= i32::MAX,
        ensures
            final(self).max == old(self).max,
            final(self).current == (if old(self).current - amount > 0 {
                old(self).current - amount
            } else {
                0int
            }),
            old(self).spec_valid() && amount >= 0 ==> final(self).spec_valid(),
    {
        let left = self.current - amount;
        self.current = if left > 0 {
            left
        } else {
            0
        };
    }

    /// Gains `amount` points, not going above the maximum.
    pub fn heal(&mut self, amount: i32)
        requires
            i32::MIN <= old(self).current + amount <= i32::MAX,
        ensures
            final(self).max == old(self).max,
            final(self).current == (if old(self).current + amount < old(self).max {
                old(self).current + amount
            } else {
                old(self).max as int
            }),
            old(self).spec_valid() && amount >= 0 ==> final(self).spec_valid(),
    {
        let raised = self.current + amount;
        self.current = if raised < self.max {
            raised
        } else {
            self.max
        };
    }

    /// Whether any points are left.
    pub fn is_alive(&self) -> (b: bool)
        ensures
            b == (self.current > 0),
    {
        self.current > 0
    }
}

impl Component for Health {
    open spec fn spec_valid(&self) -> bool {
        self.max >= 0 && self.current >= 0 && self.current <= self.max
    }

    open spec fn spec_type_id() -> ComponentTypeId {
        HEALTH_COMPONENT
    }

    fn validate(&self) -> (b: bool) {
        self.max >= 0 && self.current >= 0 && self.current <= self.max
    }

    fn component_type_id() -> (id: ComponentTypeId) {
        HEALTH_COMPONENT
    }
}

impl Diffable for Health {
    open spec fn spec_diff(&self, other: &Self) -> Option<Seq<Change>> {
        let changes = field_changes("current"@, self.current.spec_diff(&other.current))
            + field_changes("max"@, self.max.spec_diff(&other.max));
        if changes.len() == 0 {
            None
        } else {
            Some(changes)
        }
    }

    proof fn lemma_diff_not_empty(&self, other: &Self) {
    }

    open spec fn spec_name_of_type() -> Seq<char> {
        "Health"@
    }

    fn diff(&self, other: &Self) -> (r: Option<Vec<PropertyDiff>>) {
        let mut changes: Vec<PropertyDiff> = Vec::new();
        push_field_changes(&mut changes, "current", self.current.diff(&other.current));
        push_field_changes(&mut changes, "max", self.max.diff(&other.max));
        proof {
            assert(changes_of(Seq::<PropertyDiff>::empty()) =~= Seq::<Change>::empty());
        }
        if changes.len() == 0 {
            None
        } else {
            Some(changes)
        }
    }

    fn name_of_type() -> (n: &'static str) {
        "Health"
    }

    /// Each change is offered to each field in turn: a change named after
    /// the field sets it, one named after the field and a dot is applied to
    /// the field; reports whether any change was applied.
    open spec fn spec_applied(&self, changes: Seq<Change>, after: Self, applied: bool) -> bool {
        health_applied(*self, changes, changes.len()) == (after, applied)
    }

    fn apply_diff(&mut self, changes: &[PropertyDiff]) -> (applied: bool) {
        let ghost start = *self;
        let ghost cs = changes_of(changes@);
        let mut applied = false;
        let mut i: usize = 0;
        while i < changes.len()
            invariant
                i <= changes@.len(),
                cs == changes_of(changes@),
                health_applied(start, cs, i as nat) == (*self, applied),
            decreases changes@.len() - i,
        {
            let name = changes[i].property_name.as_str();
            let text = changes[i].new_value.as_str();
            assert(cs[i as int] == (name@, text@));
            let a1 = apply_i32_change(&mut self.current, "current", name, text);
            let a2 = apply_i32_change(&mut self.max, "max", name, text);
            applied = applied || a1 || a2;
            i = i + 1;
        }
        applied
    }
}

/// Comparing a health value with itself finds no change; changing only the
/// current points is reported as a single change named `current`.
pub proof fn lemma_health_diff(a: Health, b: Health)
    ensures
        a.spec_diff(&a) is None,
        a.max == b.max && a.current != b.current ==> (a.spec_diff(&b) matches Some(cs) && cs.len()
            == 1 && cs[0].0 == "current"@),
{
    assert(field_changes("current"@, None) =~= Seq::<Change>::empty());
    assert(field_changes("max"@, None) =~= Seq::<Change>::empty());
    assert(Seq::<Change>::empty() + Seq::<Change>::empty() =~= Seq::<Change>::empty());
    if a.max == b.max && a.current != b.current {
        let cs = field_changes("current"@, a.current.spec_diff(&b.current));
        assert(cs + Seq::<Change>::empty() =~= cs);
        assert(cs.len() == 1);
    }
}

/// Applying to `a` the changes from `a` to `b` gives `b`, provided the RON
/// parser reads back the text of `b`'s fields (as its wrapper states).
pub proof fn lemma_health_apply_diff_restores(a: Health, b: Health)
    requires
        ron_parsed_i32(signed_decimal_text(b.current as int)) == Some(b.current),
        ron_parsed_i32(signed_decimal_text(b.max as int)) == Some(b.max),
    ensures
        match a.spec_diff(&b) {
            Some(cs) => a.spec_applied(cs, b, true),
            None => a == b,
        },
{
    reveal_strlit("current");
    reveal_strlit("max");
    reveal_strlit("value");
    reveal_strlit(".");
    let cur = field_changes("current"@, a.current.spec_diff(&b.current));
    let mx = field_changes("max"@, a.max.spec_diff(&b.max));
    let cs = cur + mx;
    let cur_change = ("current"@, signed_decimal_text(b.current as int));
    let max_change = ("max"@, signed_decimal_text(b.max as int));
    assert(!("current"@ + "."@).is_prefix_of("max"@));
    assert(!("max"@ + "."@).is_prefix_of("current"@)) by {
        assert(("max"@ + "."@)[0] != "current"@[0]);
    }
    assert("current"@ != "max"@) by {
        assert("current"@.len() != "max"@.len());
    }
    if a.current != b.current {
        assert(cur =~= seq![cur_change]);
    } else {
        assert(cur =~= Seq::<Change>::empty());
    }
    if a.max != b.max {
        assert(mx =~= seq![max_change]);
    } else {
        assert(mx =~= Seq::<Change>::empty());
    }
    if cs.len() > 0 {
        let one = health_applied(a, cs, 1);
        let two = health_applied(a, cs, cs.len());
        assert(health_applied(a, cs, 0) == (a, false));
        if a.current != b.current && a.max != b.max {
            assert(cs[0] == cur_change);
            assert(cs[1] == max_change);
            assert(one.0 == (Health { current: b.current, max: a.max }));
        } else if a.current != b.current {
            assert(cs =~= seq![cur_change]);
        } else {
            assert(cs =~= seq![max_change]);
        }
        assert(two == (b, true));
    } else {
        assert(cs =~= Seq::<Change>::empty());
    }
}

} // verus!
