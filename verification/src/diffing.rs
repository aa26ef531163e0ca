use vstd::prelude::*;
use vstd::string::StringExecFns;
use crate::ecs::{ComponentTypeId, Entity, World, has_in};
use std::collections::HashMap;
use vstd::std_specs::hash::spec_keys_iter;
use vstd::std_specs::iter::IteratorSpec;
use crate::text::{decimal_text, has_prefix, push_decimal, push_signed_decimal, signed_decimal_text, str_eq};

verus! {

/// `ron::Error`, the error of RON serialization; carried through, not inspected.
#[verifier::external_type_specification]
#[verifier::external_body]
pub struct ExRonError(ron::Error);

/// A plain value handed to the RON serializer.
pub enum RonValue<'a> {
    Int(i64),
    UInt(u64),
    Bool(bool),
    Text(&'a str),
}

/// The RON string literal for `s`: quoted, with each character written the
/// way `char::escape_debug` writes it.
pub uninterp spec fn ron_string_literal(s: Seq<char>) -> Seq<char>;

/// The text RON writes for a plain value.
pub open spec fn ron_text(value: RonValue) -> Seq<char> {
    match value {
        RonValue::Int(v) => signed_decimal_text(v as int),
        RonValue::UInt(v) => decimal_text(v as nat),
        RonValue::Bool(b) => if b {
            "true"@
        } else {
            "false"@
        },
        RonValue::Text(s) => ron_string_literal(s@),
    }
}

/// `ron::to_string` on a plain value. Its source writes integers in decimal
/// (with a leading `-` when negative), booleans as `true`/`false`, and strings
/// quoted with `escape_debug`, into a `Vec`, so it does not fail on these
/// values.
#[verifier::external_body]
fn ron_to_string(value: &RonValue) -> (r: Result<String, ron::Error>)
    ensures
        r is Ok,
        match *value {
            RonValue::Int(v) => r->Ok_0@ == signed_decimal_text(v as int),
            RonValue::UInt(v) => r->Ok_0@ == decimal_text(v as nat),
            RonValue::Bool(b) => r->Ok_0@ == (if b {
                "true"@
            } else {
                "false"@
            }),
            RonValue::Text(t) => r->Ok_0@ == ron_string_literal(t@),
        },
{
    match value {
        RonValue::Int(v) => ron::to_string(v),
        RonValue::UInt(v) => ron::to_string(v),
        RonValue::Bool(v) => ron::to_string(v),
        RonValue::Text(v) => ron::to_string(v),
    }
}

/// The RON text of `value`, or the empty string when serialization fails.
pub fn ron_text_or_default(value: &RonValue) -> (r: String)
    ensures
        r@ == ron_text(*value),
{
    match ron_to_string(value) {
        Ok(text) => text,
        Err(_) => String::new(),
    }
}

/// `ron::error::SpannedError`, the error of RON parsing; carried through,
/// not inspected.
#[verifier::external_type_specification]
#[verifier::external_body]
pub struct ExRonSpannedError(ron::error::SpannedError);

/// The `i32` that RON text denotes, if any.
pub uninterp spec fn ron_parsed_i32(text: Seq<char>) -> Option<i32>;

/// The `u64` that RON text denotes, if any.
pub uninterp spec fn ron_parsed_u64(text: Seq<char>) -> Option<u64>;

/// The `bool` that RON text denotes, if any.
pub uninterp spec fn ron_parsed_bool(text: Seq<char>) -> Option<bool>;

/// The string that RON text denotes, if any.
pub uninterp spec fn ron_parsed_string(text: Seq<char>) -> Option<Seq<char>>;

/// `ron::from_str::<i32>`. Its parser reads an optional sign and the digits
/// of a number, so the decimal text of an `i32` (as `ron::to_string` writes
/// it) parses back to that number.
#[verifier::external_body]
fn ron_parse_i32(text: &str) -> (r: Result<i32, ron::error::SpannedError>)
    ensures
        match r {
            Ok(v) => ron_parsed_i32(text@) == Some(v),
            Err(_) => ron_parsed_i32(text@) is None,
        },
        r matches Ok(x) ==> forall|v: i32| text@ == signed_decimal_text(v as int) ==> x == v,
        r is Err ==> forall|v: i32| text@ != signed_decimal_text(v as int),
{
    ron::from_str::<i32>(text)
}

/// `ron::from_str::<u64>`. Its parser reads the digits of a number, so the
/// decimal text of a `u64` parses back to that number.
#[verifier::external_body]
fn ron_parse_u64(text: &str) -> (r: Result<u64, ron::error::SpannedError>)
    ensures
        match r {
            Ok(v) => ron_parsed_u64(text@) == Some(v),
            Err(_) => ron_parsed_u64(text@) is None,
        },
        r matches Ok(x) ==> forall|v: u64| text@ == decimal_text(v as nat) ==> x == v,
        r is Err ==> forall|v: u64| text@ != decimal_text(v as nat),
{
    ron::from_str::<u64>(text)
}

/// `ron::from_str::<bool>`. Its parser accepts `true` and `false`.
#[verifier::external_body]
fn ron_parse_bool(text: &str) -> (r: Result<bool, ron::error::SpannedError>)
    ensures
        match r {
            Ok(v) => ron_parsed_bool(text@) == Some(v),
            Err(_) => ron_parsed_bool(text@) is None,
        },
        r matches Ok(x) ==> (text@ == "true"@ ==> x) && (text@ == "false"@ ==> !x),
        r is Err ==> text@ != "true"@ && text@ != "false"@,
{
    ron::from_str::<bool>(text)
}

/// `ron::from_str::<String>`: the string that RON text denotes.
#[verifier::external_body]
fn ron_parse_string(text: &str) -> (r: Result<String, ron::error::SpannedError>)
    ensures
        match r {
            Ok(v) => ron_parsed_string(text@) == Some(v@),
            Err(_) => ron_parsed_string(text@) is None,
        },
{
    ron::from_str::<String>(text)
}

/// The value parsed from the first change named `value` whose text parses.
pub open spec fn first_parsed<T>(changes: Seq<Change>, parse: spec_fn(Seq<char>) -> Option<T>) -> Option<T>
    decreases changes.len(),
{
    if changes.len() == 0 {
        None
    } else if changes[0].0 == "value"@ && parse(changes[0].1) is Some {
        parse(changes[0].1)
    } else {
        first_parsed(changes.drop_first(), parse)
    }
}

/// RON parsing into `i32`, as a function.
pub open spec fn i32_parser() -> spec_fn(Seq<char>) -> Option<i32> {
    |t: Seq<char>| ron_parsed_i32(t)
}

/// RON parsing into `u64`, as a function.
pub open spec fn u64_parser() -> spec_fn(Seq<char>) -> Option<u64> {
    |t: Seq<char>| ron_parsed_u64(t)
}

/// RON parsing into `bool`, as a function.
pub open spec fn bool_parser() -> spec_fn(Seq<char>) -> Option<bool> {
    |t: Seq<char>| ron_parsed_bool(t)
}

/// RON parsing into a string, as a function.
pub open spec fn string_parser() -> spec_fn(Seq<char>) -> Option<Seq<char>> {
    |t: Seq<char>| ron_parsed_string(t)
}

/// A single changed property: its name and its new value in RON.
#[derive(Debug, Clone)]
pub struct PropertyDiff {
    pub property_name: String,
    pub new_value: String,
}

/// All changes to one component of one entity.
#[derive(Debug, Clone)]
pub struct ComponentDiff {
    pub entity_id: Entity,
    pub component_type: String,
    pub changes: Vec<PropertyDiff>,
}

/// The changes one system made in one frame.
#[derive(Debug, Clone)]
pub struct SystemDiffRecord {
    pub frame_number: u64,
    pub system_name: String,
    pub component_diffs: Vec<ComponentDiff>,
}

/// A change as (property name, new value).
pub type Change = (Seq<char>, Seq<char>);

/// The (name, value) view of a property diff.
pub open spec fn change_of(d: PropertyDiff) -> Change {
    (d.property_name@, d.new_value@)
}

/// The view of a list of property diffs.
pub open spec fn changes_of(list: Seq<PropertyDiff>) -> Seq<Change> {
    list.map_values(|d: PropertyDiff| change_of(d))
}

/// The view of a diff result.
pub open spec fn diff_view(r: Option<Vec<PropertyDiff>>) -> Option<Seq<Change>> {
    match r {
        Some(list) => Some(changes_of(list@)),
        None => None,
    }
}

/// The diff of a single value that changed to one whose RON text is `text`.
pub open spec fn value_changed(text: Seq<char>) -> Option<Seq<Change>> {
    Some(seq![("value"@, text)])
}

/// Types whose values can be compared property by property.
pub trait Diffable: Sized {
    /// The changes from `self` to `other`; `None` when there are none.
    spec fn spec_diff(&self, other: &Self) -> Option<Seq<Change>>;

    /// A diff is reported only with at least one change: `None` is the one
    /// answer for "nothing changed".
    proof fn lemma_diff_not_empty(&self, other: &Self)
        ensures
            self.spec_diff(other) matches Some(changes) ==> changes.len() > 0,
    ;

    /// The name shown for the type.
    spec fn spec_name_of_type() -> Seq<char>;

    /// The changes from `self` to `other`; `None` when there are none.
    fn diff(&self, other: &Self) -> (r: Option<Vec<PropertyDiff>>)
        ensures
            diff_view(r) == self.spec_diff(other),
    ;

    /// The name shown for the type.
    fn name_of_type() -> (n: &'static str)
        ensures
            n@ == Self::spec_name_of_type(),
    ;

    /// Applying `changes` to `self` gives `after`, and reports `applied`.
    spec fn spec_applied(&self, changes: Seq<Change>, after: Self, applied: bool) -> bool;

    /// Applies recorded changes; reports whether any was applied.
    fn apply_diff(&mut self, changes: &[PropertyDiff]) -> (applied: bool)
        ensures
            old(self).spec_applied(changes_of(changes@), *final(self), applied),
    ;
}

/// The value of the first change named `value` whose text parses as i32.
fn first_parsed_i32(changes: &[PropertyDiff]) -> (r: Option<i32>)
    ensures
        r == first_parsed(changes_of(changes@), i32_parser()),
{
    let ghost cs = changes_of(changes@);
    assert(cs.subrange(0, cs.len() as int) =~= cs);
    let mut i: usize = 0;
    while i < changes.len()
        invariant
            i <= changes@.len(),
            cs == changes_of(changes@),
            first_parsed(cs, i32_parser()) == first_parsed(cs.subrange(i as int, cs.len() as int), i32_parser()),
        decreases changes@.len() - i,
    {
        let ghost rest = cs.subrange(i as int, cs.len() as int);
        assert(rest[0] == change_of(changes@[i as int]));
        if str_eq(changes[i].property_name.as_str(), "value") {
            match ron_parse_i32(changes[i].new_value.as_str()) {
                Ok(v) => {
                    return Some(v);
                },
                Err(_) => {},
            }
        }
        assert(cs.subrange(i + 1, cs.len() as int) =~= rest.drop_first());
        i = i + 1;
    }
    None
}

/// The value of the first change named `value` whose text parses as u64.
fn first_parsed_u64(changes: &[PropertyDiff]) -> (r: Option<u64>)
    ensures
        r == first_parsed(changes_of(changes@), u64_parser()),
{
    let ghost cs = changes_of(changes@);
    assert(cs.subrange(0, cs.len() as int) =~= cs);
    let mut i: usize = 0;
    while i < changes.len()
        invariant
            i <= changes@.len(),
            cs == changes_of(changes@),
            first_parsed(cs, u64_parser()) == first_parsed(cs.subrange(i as int, cs.len() as int), u64_parser()),
        decreases changes@.len() - i,
    {
        let ghost rest = cs.subrange(i as int, cs.len() as int);
        assert(rest[0] == change_of(changes@[i as int]));
        if str_eq(changes[i].property_name.as_str(), "value") {
            match ron_parse_u64(changes[i].new_value.as_str()) {
                Ok(v) => {
                    return Some(v);
                },
                Err(_) => {},
            }
        }
        assert(cs.subrange(i + 1, cs.len() as int) =~= rest.drop_first());
        i = i + 1;
    }
    None
}

/// The value of the first change named `value` whose text parses as bool.
fn first_parsed_bool(changes: &[PropertyDiff]) -> (r: Option<bool>)
    ensures
        r == first_parsed(changes_of(changes@), bool_parser()),
{
    let ghost cs = changes_of(changes@);
    assert(cs.subrange(0, cs.len() as int) =~= cs);
    let mut i: usize = 0;
    while i < changes.len()
        invariant
            i <= changes@.len(),
            cs == changes_of(changes@),
            first_parsed(cs, bool_parser()) == first_parsed(cs.subrange(i as int, cs.len() as int), bool_parser()),
        decreases changes@.len() - i,
    {
        let ghost rest = cs.subrange(i as int, cs.len() as int);
        assert(rest[0] == change_of(changes@[i as int]));
        if str_eq(changes[i].property_name.as_str(), "value") {
            match ron_parse_bool(changes[i].new_value.as_str()) {
                Ok(v) => {
                    return Some(v);
                },
                Err(_) => {},
            }
        }
        assert(cs.subrange(i + 1, cs.len() as int) =~= rest.drop_first());
        i = i + 1;
    }
    None
}

/// The value of the first change named `value` whose text parses as String.
fn first_parsed_string(changes: &[PropertyDiff]) -> (r: Option<String>)
    ensures
        match r {
            Some(v) => first_parsed(changes_of(changes@), string_parser()) == Some(v@),
            None => first_parsed(changes_of(changes@), string_parser()) is None,
        },
{
    let ghost cs = changes_of(changes@);
    assert(cs.subrange(0, cs.len() as int) =~= cs);
    let mut i: usize = 0;
    while i < changes.len()
        invariant
            i <= changes@.len(),
            cs == changes_of(changes@),
            first_parsed(cs, string_parser()) == first_parsed(cs.subrange(i as int, cs.len() as int), string_parser()),
        decreases changes@.len() - i,
    {
        let ghost rest = cs.subrange(i as int, cs.len() as int);
        assert(rest[0] == change_of(changes@[i as int]));
        if str_eq(changes[i].property_name.as_str(), "value") {
            match ron_parse_string(changes[i].new_value.as_str()) {
                Ok(v) => {
                    return Some(v);
                },
                Err(_) => {},
            }
        }
        assert(cs.subrange(i + 1, cs.len() as int) =~= rest.drop_first());
        i = i + 1;
    }
    None
}

/// A one-element change list for a changed value.
fn single_change(new_value: String) -> (r: Option<Vec<PropertyDiff>>)
    ensures
        diff_view(r) == value_changed(new_value@),
{
    let mut list: Vec<PropertyDiff> = Vec::new();
    list.push(PropertyDiff { property_name: String::from_str("value"), new_value });
    proof {
        assert(changes_of(list@) =~= seq![("value"@, new_value@)]);
    }
    Some(list)
}

impl Diffable for i32 {
    open spec fn spec_diff(&self, other: &Self) -> Option<Seq<Change>> {
        if *self != *other {
            value_changed(signed_decimal_text(*other as int))
        } else {
            None
        }
    }

    proof fn lemma_diff_not_empty(&self, other: &Self) {
    }

    open spec fn spec_name_of_type() -> Seq<char> {
        "i32"@
    }

    fn diff(&self, other: &Self) -> (r: Option<Vec<PropertyDiff>>) {
        if *self != *other {
            single_change(ron_text_or_default(&RonValue::Int(*other as i64)))
        } else {
            None
        }
    }

    fn name_of_type() -> (n: &'static str) {
        "i32"
    }

    /// The first change named `value` whose text parses gives the new value.
    open spec fn spec_applied(&self, changes: Seq<Change>, after: Self, applied: bool) -> bool {
        match first_parsed(changes, i32_parser()) {
            Some(v) => after == v && applied,
            None => after == *self && !applied,
        }
    }

    fn apply_diff(&mut self, changes: &[PropertyDiff]) -> (applied: bool) {
        match first_parsed_i32(changes) {
            Some(v) => {
                *self = v;
                true
            },
            None => false,
        }
    }
}

impl Diffable for u64 {
    open spec fn spec_diff(&self, other: &Self) -> Option<Seq<Change>> {
        if *self != *other {
            value_changed(decimal_text(*other as nat))
        } else {
            None
        }
    }

    proof fn lemma_diff_not_empty(&self, other: &Self) {
    }

    open spec fn spec_name_of_type() -> Seq<char> {
        "u64"@
    }

    fn diff(&self, other: &Self) -> (r: Option<Vec<PropertyDiff>>) {
        if *self != *other {
            single_change(ron_text_or_default(&RonValue::UInt(*other)))
        } else {
            None
        }
    }

    fn name_of_type() -> (n: &'static str) {
        "u64"
    }

    /// The first change named `value` whose text parses gives the new value.
    open spec fn spec_applied(&self, changes: Seq<Change>, after: Self, applied: bool) -> bool {
        match first_parsed(changes, u64_parser()) {
            Some(v) => after == v && applied,
            None => after == *self && !applied,
        }
    }

    fn apply_diff(&mut self, changes: &[PropertyDiff]) -> (applied: bool) {
        match first_parsed_u64(changes) {
            Some(v) => {
                *self = v;
                true
            },
            None => false,
        }
    }
}

impl Diffable for bool {
    open spec fn spec_diff(&self, other: &Self) -> Option<Seq<Change>> {
        if *self != *other {
            value_changed(
                if *other {
                    "true"@
                } else {
                    "false"@
                },
            )
        } else {
            None
        }
    }

    proof fn lemma_diff_not_empty(&self, other: &Self) {
    }

    open spec fn spec_name_of_type() -> Seq<char> {
        "bool"@
    }

    fn diff(&self, other: &Self) -> (r: Option<Vec<PropertyDiff>>) {
        if *self != *other {
            single_change(ron_text_or_default(&RonValue::Bool(*other)))
        } else {
            None
        }
    }

    fn name_of_type() -> (n: &'static str) {
        "bool"
    }

    /// The first change named `value` whose text parses gives the new value.
    open spec fn spec_applied(&self, changes: Seq<Change>, after: Self, applied: bool) -> bool {
        match first_parsed(changes, bool_parser()) {
            Some(v) => after == v && applied,
            None => after == *self && !applied,
        }
    }

    fn apply_diff(&mut self, changes: &[PropertyDiff]) -> (applied: bool) {
        match first_parsed_bool(changes) {
            Some(v) => {
                *self = v;
                true
            },
            None => false,
        }
    }
}

impl Diffable for String {
    open spec fn spec_diff(&self, other: &Self) -> Option<Seq<Change>> {
        if self@ != other@ {
            value_changed(ron_string_literal(other@))
        } else {
            None
        }
    }

    proof fn lemma_diff_not_empty(&self, other: &Self) {
    }

    open spec fn spec_name_of_type() -> Seq<char> {
        "String"@
    }

    fn diff(&self, other: &Self) -> (r: Option<Vec<PropertyDiff>>) {
        if !str_eq(self.as_str(), other.as_str()) {
            single_change(ron_text_or_default(&RonValue::Text(other.as_str())))
        } else {
            None
        }
    }

    fn name_of_type() -> (n: &'static str) {
        "String"
    }

    /// The first change named `value` whose text parses gives the new value.
    open spec fn spec_applied(&self, changes: Seq<Change>, after: Self, applied: bool) -> bool {
        match first_parsed(changes, string_parser()) {
            Some(v) => after@ == v && applied,
            None => after == *self && !applied,
        }
    }

    fn apply_diff(&mut self, changes: &[PropertyDiff]) -> (applied: bool) {
        match first_parsed_string(changes) {
            Some(v) => {
                *self = v;
                true
            },
            None => false,
        }
    }
}

/// The property name of element `i`'s property `name`.
pub open spec fn indexed_name(i: nat, name: Seq<char>) -> Seq<char> {
    "["@ + decimal_text(i) + "]."@ + name
}

/// The changes of the first `n` elements of two equally long lists.
pub open spec fn element_changes<T: Diffable>(a: Seq<T>, b: Seq<T>, n: nat) -> Seq<Change>
    decreases n,
{
    if n == 0 {
        Seq::empty()
    } else {
        let i = (n - 1) as nat;
        let before = element_changes(a, b, i);
        match a[i as int].spec_diff(&b[i as int]) {
            Some(ds) => before + ds.map_values(|d: Change| (indexed_name(i, d.0), d.1)),
            None => before,
        }
    }
}

proof fn lemma_element_changes_keep<T: Diffable>(a: Seq<T>, b: Seq<T>, n: nat, i: int, j: int)
    requires
        n <= a.len(),
        0 <= i < n,
        a[i].spec_diff(&b[i]) matches Some(ds) && 0 <= j < ds.len(),
    ensures
        element_changes(a, b, n).contains(
            (indexed_name(i as nat, a[i].spec_diff(&b[i])->0[j].0), a[i].spec_diff(&b[i])->0[j].1),
        ),
    decreases n,
{
    let ds = a[i].spec_diff(&b[i])->0;
    let c = (indexed_name(i as nat, ds[j].0), ds[j].1);
    let k = (n - 1) as nat;
    let before = element_changes(a, b, k);
    if i < k {
        lemma_element_changes_keep(a, b, k, i, j);
        let p = choose|p: int| 0 <= p < before.len() && before[p] == c;
        match a[k as int].spec_diff(&b[k as int]) {
            Some(es) => {
                let tail = es.map_values(|d: Change| (indexed_name(k, d.0), d.1));
                assert((before + tail)[p] == c);
            },
            None => {},
        }
    } else {
        let tail = ds.map_values(|d: Change| (indexed_name(i as nat, d.0), d.1));
        assert((before + tail)[before.len() + j] == c);
    }
}

proof fn lemma_element_changes_from<T: Diffable>(a: Seq<T>, b: Seq<T>, n: nat, c: Change)
    requires
        n <= a.len(),
        element_changes(a, b, n).contains(c),
    ensures
        exists|i: int, j: int|
            #![trigger a[i].spec_diff(&b[i])->0[j]]
            0 <= i < n && a[i].spec_diff(&b[i]) is Some && 0 <= j < a[i].spec_diff(&b[i])->0.len()
                && c == (
                indexed_name(i as nat, a[i].spec_diff(&b[i])->0[j].0),
                a[i].spec_diff(&b[i])->0[j].1,
            ),
    decreases n,
{
    let k = (n - 1) as nat;
    let before = element_changes(a, b, k);
    let p = choose|p: int| 0 <= p < element_changes(a, b, n).len() && element_changes(a, b, n)[p] == c;
    match a[k as int].spec_diff(&b[k as int]) {
        Some(es) => {
            let tail = es.map_values(|d: Change| (indexed_name(k, d.0), d.1));
            if p < before.len() {
                assert((before + tail)[p] == before[p]);
                lemma_element_changes_from(a, b, k, c);
            } else {
                let j = p - before.len();
                assert((before + tail)[p] == tail[j]);
                assert(c == (indexed_name(k, es[j].0), es[j].1));
            }
        },
        None => {
            lemma_element_changes_from(a, b, k, c);
        },
    }
}

/// A diff of two equally long lists keeps every change of every element:
/// each change of element `i` appears, named `[i].` and its own name, and
/// every change of the list diff is such a change of one element.
pub proof fn lemma_list_diff_keeps_element_changes<T: Diffable>(a: Vec<T>, b: Vec<T>)
    requires
        a@.len() == b@.len(),
    ensures
        forall|i: int, j: int|
            #![trigger a@[i].spec_diff(&b@[i])->0[j]]
            0 <= i < a@.len() && a@[i].spec_diff(&b@[i]) is Some && 0 <= j < a@[i].spec_diff(
                &b@[i],
            )->0.len() ==> (a.spec_diff(&b) matches Some(cs) && cs.contains(
                ("["@ + decimal_text(i as nat) + "]."@ + a@[i].spec_diff(&b@[i])->0[j].0,
                a@[i].spec_diff(&b@[i])->0[j].1),
            )),
        a.spec_diff(&b) matches Some(cs) ==> forall|c: Change|
            #[trigger] cs.contains(c) ==> exists|i: int, j: int|
                #![trigger a@[i].spec_diff(&b@[i])->0[j]]
                0 <= i < a@.len() && a@[i].spec_diff(&b@[i]) is Some && 0 <= j < a@[i].spec_diff(
                    &b@[i],
                )->0.len() && c == (
                    "["@ + decimal_text(i as nat) + "]."@ + a@[i].spec_diff(&b@[i])->0[j].0,
                    a@[i].spec_diff(&b@[i])->0[j].1,
                ),
{
    let n = a@.len();
    assert forall|i: int, j: int|
        #![trigger a@[i].spec_diff(&b@[i])->0[j]]
        0 <= i < a@.len() && a@[i].spec_diff(&b@[i]) is Some && 0 <= j < a@[i].spec_diff(
            &b@[i],
        )->0.len() implies (a.spec_diff(&b) matches Some(cs) && cs.contains(
        ("["@ + decimal_text(i as nat) + "]."@ + a@[i].spec_diff(&b@[i])->0[j].0,
        a@[i].spec_diff(&b@[i])->0[j].1),
    )) by {
        lemma_element_changes_keep(a@, b@, n, i, j);
    }
    if a.spec_diff(&b) is Some {
        let cs = a.spec_diff(&b)->0;
        assert forall|c: Change| #[trigger] cs.contains(c) implies exists|i: int, j: int|
            #![trigger a@[i].spec_diff(&b@[i])->0[j]]
            0 <= i < a@.len() && a@[i].spec_diff(&b@[i]) is Some && 0 <= j < a@[i].spec_diff(
                &b@[i],
            )->0.len() && c == (
                "["@ + decimal_text(i as nat) + "]."@ + a@[i].spec_diff(&b@[i])->0[j].0,
                a@[i].spec_diff(&b@[i])->0[j].1,
            ) by {
            lemma_element_changes_from(a@, b@, n, c);
        }
    }
}

/// The text recorded when a list changes length.
pub open spec fn resized_text(len: nat) -> Seq<char> {
    "Vec with "@ + decimal_text(len) + " elements"@
}

impl<T: Diffable> Diffable for Vec<T> {
    open spec fn spec_diff(&self, other: &Self) -> Option<Seq<Change>> {
        if self@.len() != other@.len() {
            value_changed(resized_text(other@.len()))
        } else {
            let changes = element_changes(self@, other@, self@.len());
            if changes.len() == 0 {
                None
            } else {
                Some(changes)
            }
        }
    }

    proof fn lemma_diff_not_empty(&self, other: &Self) {
    }

    open spec fn spec_name_of_type() -> Seq<char> {
        "Vec"@
    }

    fn diff(&self, other: &Self) -> (r: Option<Vec<PropertyDiff>>) {
        if self.len() != other.len() {
            let mut text = String::from_str("Vec with ");
            push_decimal(&mut text, other.len() as u64);
            text.append(" elements");
            proof {
                assert(text@ =~= resized_text(other@.len()));
            }
            return single_change(text);
        }
        let mut changes: Vec<PropertyDiff> = Vec::new();
        let mut i: usize = 0;
        while i < self.len()
            invariant
                self@.len() == other@.len(),
                i <= self@.len(),
                changes_of(changes@) == element_changes(self@, other@, i as nat),
            decreases self@.len() - i,
        {
            let element = self[i].diff(&other[i]);
            match element {
                Some(list) => {
                    let ghost before = changes@;
                    let ghost ds = changes_of(list@);
                    let mut k: usize = 0;
                    while k < list.len()
                        invariant
                            k <= list@.len(),
                            ds == changes_of(list@),
                            changes_of(changes@) == changes_of(before) + ds.subrange(
                                0,
                                k as int,
                            ).map_values(|d: Change| (indexed_name(i as nat, d.0), d.1)),
                        decreases list@.len() - k,
                    {
                        let mut name = String::from_str("[");
                        push_decimal(&mut name, i as u64);
                        name.append("].");
                        name.append(list[k].property_name.as_str());
                        let value = list[k].new_value.clone();
                        let ghost prev = changes@;
                        changes.push(PropertyDiff { property_name: name, new_value: value });
                        k = k + 1;
                        proof {
                            assert(name@ =~= indexed_name(i as nat, ds[k - 1].0));
                            assert(changes@ == prev.push(changes@[changes@.len() - 1]));
                            assert(changes_of(changes@) =~= changes_of(prev).push(
                                change_of(changes@[changes@.len() - 1]),
                            ));
                            assert(ds.subrange(0, k as int) =~= ds.subrange(0, k - 1).push(
                                ds[k - 1],
                            ));
                            assert(changes_of(changes@) =~= changes_of(before) + ds.subrange(
                                0,
                                k as int,
                            ).map_values(|d: Change| (indexed_name(i as nat, d.0), d.1)));
                        }
                    }
                    proof {
                        assert(ds.subrange(0, list@.len() as int) =~= ds);
                    }
                },
                None => {},
            }
            i = i + 1;
        }
        if changes.len() == 0 {
            None
        } else {
            Some(changes)
        }
    }

    fn name_of_type() -> (n: &'static str) {
        "Vec"
    }

    /// A change named `value` (a change of length) empties the list; element
    /// changes are not applied.
    open spec fn spec_applied(&self, changes: Seq<Change>, after: Self, applied: bool) -> bool {
        if exists|i: int| 0 <= i < changes.len() && #[trigger] changes[i].0 == "value"@ {
            after@ == Seq::<T>::empty() && applied
        } else {
            after == *self && !applied
        }
    }

    fn apply_diff(&mut self, changes: &[PropertyDiff]) -> (applied: bool) {
        let ghost cs = changes_of(changes@);
        let mut i: usize = 0;
        while i < changes.len()
            invariant
                i <= changes@.len(),
                cs == changes_of(changes@),
                *self == *old(self),
                forall|j: int| 0 <= j < i ==> #[trigger] cs[j].0 != "value"@,
            decreases changes@.len() - i,
        {
            assert(cs[i as int] == change_of(changes@[i as int]));
            if str_eq(changes[i].property_name.as_str(), "value") {
                assert(cs[i as int].0 == "value"@);
                self.clear();
                return true;
            }
            i = i + 1;
        }
        false
    }
}

/// A plain value is reported changed exactly when it differs, and then as a
/// single change named `value`.
pub proof fn lemma_plain_diff_iff_changed(a: i32, b: i32, c: u64, d: u64, e: bool, f: bool, g: String, h: String)
    ensures
        a.spec_diff(&b) is None <==> a == b,
        c.spec_diff(&d) is None <==> c == d,
        e.spec_diff(&f) is None <==> e == f,
        g.spec_diff(&h) is None <==> g@ == h@,
        a != b ==> (a.spec_diff(&b) matches Some(cs) && cs.len() == 1 && cs[0].0 == "value"@),
        c != d ==> (c.spec_diff(&d) matches Some(cs) && cs.len() == 1 && cs[0].0 == "value"@),
        e != f ==> (e.spec_diff(&f) matches Some(cs) && cs.len() == 1 && cs[0].0 == "value"@),
        g@ != h@ ==> (g.spec_diff(&h) matches Some(cs) && cs.len() == 1 && cs[0].0 == "value"@),
{
}

/// Comparing a list with itself finds no change, provided comparing each
/// element with itself finds none.
pub proof fn lemma_list_unchanged_no_diff<T: Diffable>(list: Vec<T>)
    requires
        forall|i: int| 0 <= i < list@.len() ==> (#[trigger] list@[i]).spec_diff(&list@[i]) is None,
    ensures
        list.spec_diff(&list) is None,
{
    lemma_element_changes_unchanged(list@, list@.len());
}

proof fn lemma_element_changes_unchanged<T: Diffable>(items: Seq<T>, n: nat)
    requires
        n <= items.len(),
        forall|i: int| 0 <= i < items.len() ==> (#[trigger] items[i]).spec_diff(&items[i]) is None,
    ensures
        element_changes(items, items, n) == Seq::<Change>::empty(),
    decreases n,
{
    if n > 0 {
        lemma_element_changes_unchanged(items, (n - 1) as nat);
        assert(items[n - 1].spec_diff(&items[n - 1]) is None);
    }
}

/// The name a map entry gets in diffs: its key's debug form in brackets.
pub open spec fn key_entry_name(key: u64) -> Seq<char> {
    "["@ + decimal_text(key as nat) + "]"@
}

/// Each element is smaller than the next.
pub open spec fn strictly_increasing(s: Seq<u64>) -> bool {
    forall|i: int, j: int| 0 <= i < j < s.len() ==> s[i] < s[j]
}

/// The keys of a map in increasing order.
pub open spec fn ascending_keys(keys: Set<u64>) -> Seq<u64> {
    choose|s: Seq<u64>| strictly_increasing(s) && s.to_set() == keys
}

/// Two increasing sequences with the same elements are equal.
pub proof fn lemma_increasing_unique(x: Seq<u64>, y: Seq<u64>)
    requires
        strictly_increasing(x),
        strictly_increasing(y),
        x.to_set() == y.to_set(),
    ensures
        x == y,
    decreases x.len(),
{
    broadcast use vstd::seq_lib::group_seq_properties;

    if x.len() == 0 {
        if y.len() > 0 {
            assert(y.to_set().contains(y[0]));
        }
        assert(x =~= y);
    } else {
        assert(x.to_set().contains(x[0]));
        assert(y.len() > 0);
        assert(y.to_set().contains(y[0]));
        let j = choose|j: int| 0 <= j < y.len() && y[j] == x[0];
        let i = choose|i: int| 0 <= i < x.len() && x[i] == y[0];
        if j > 0 {
            assert(y[0] < y[j]);
            if i > 0 {
                assert(x[0] < x[i]);
            }
            assert(false);
        }
        assert(x[0] == y[0]);
        let xs = x.drop_first();
        let ys = y.drop_first();
        assert forall|v: u64| xs.to_set().contains(v) implies ys.to_set().contains(v) by {
            let a = choose|a: int| 0 <= a < xs.len() && xs[a] == v;
            assert(x[a + 1] == v);
            assert(x[0] < x[a + 1]);
            assert(y.to_set().contains(v));
            let b = choose|b: int| 0 <= b < y.len() && y[b] == v;
            assert(b != 0);
            assert(ys[b - 1] == v);
        }
        assert forall|v: u64| ys.to_set().contains(v) implies xs.to_set().contains(v) by {
            let a = choose|a: int| 0 <= a < ys.len() && ys[a] == v;
            assert(y[a + 1] == v);
            assert(y[0] < y[a + 1]);
            assert(x.to_set().contains(v));
            let b = choose|b: int| 0 <= b < x.len() && x[b] == v;
            assert(b != 0);
            assert(xs[b - 1] == v);
        }
        assert(xs.to_set() =~= ys.to_set());
        lemma_increasing_unique(xs, ys);
        assert(x =~= seq![x[0]] + xs);
        assert(y =~= seq![y[0]] + ys);
    }
}

/// The keys of `map` in increasing order.
fn sorted_keys<V>(map: &HashMap<u64, V>) -> (keys: Vec<u64>)
    ensures
        keys@ == ascending_keys(map@.dom()),
        strictly_increasing(keys@),
        keys@.to_set() == map@.dom(),
{
    broadcast use vstd::std_specs::hash::group_hash_axioms;
    broadcast use vstd::seq_lib::group_seq_properties;

    let mut keys: Vec<u64> = Vec::new();
    for key in it: map.keys()
        invariant
            it.seq() == spec_keys_iter(map).remaining(),
            strictly_increasing(keys@),
            keys@.to_set() == it.seq().take(it.index() as int).map_values(|k: &u64| *k).to_set(),
    {
        let ghost i = it.index();
        let ghost seen = it.seq().take(i).map_values(|k: &u64| *k);
        let ghost before = keys@;
        let mut p: usize = 0;
        while p < keys.len() && keys[p] < *key
            invariant
                p <= keys@.len(),
                keys@ == before,
                forall|q: int| 0 <= q < p ==> keys@[q] < *key,
            decreases keys@.len() - p,
        {
            p = p + 1;
        }
        assert(!before.contains(*key)) by {
            if before.contains(*key) {
                assert(before.to_set().contains(*key));
                assert(seen.to_set().contains(*key));
                let a = choose|a: int| 0 <= a < seen.len() && seen[a] == *key;
                assert(it.seq()[a] == it.seq()[i]);
                assert(spec_keys_iter(map).remaining().no_duplicates());
            }
        }
        keys.insert(p, *key);
        proof {
            assert forall|a: int, b: int| 0 <= a < b < keys@.len() implies keys@[a] < keys@[b] by {
                if b < p {
                } else if a < p && b == p {
                } else if a < p {
                    assert(keys@[b] == before[b - 1]);
                    if a < p {
                        if p < before.len() {
                            assert(before[p as int] >= *key);
                            assert(before[p as int] != *key);
                        }
                    }
                } else if a == p {
                    assert(keys@[b] == before[b - 1]);
                    assert(before[p as int] >= *key);
                    assert(before[p as int] != *key);
                    if b - 1 > p {
                        assert(before[p as int] < before[b - 1]);
                    }
                } else {
                    assert(keys@[a] == before[a - 1]);
                    assert(keys@[b] == before[b - 1]);
                }
            }
            let seen_next = it.seq().take(i + 1).map_values(|k: &u64| *k);
            assert(seen_next =~= seen.push(*key));
            assert forall|v: u64| keys@.to_set().contains(v) <==> seen_next.to_set().contains(v) by {
                if keys@.to_set().contains(v) {
                    let a = choose|a: int| 0 <= a < keys@.len() && keys@[a] == v;
                    if a == p {
                        assert(seen_next[seen.len() as int] == v);
                    } else {
                        if a < p {
                            assert(before[a] == v);
                        } else {
                            assert(before[a - 1] == v);
                        }
                        assert(before.to_set().contains(v));
                        assert(seen.to_set().contains(v));
                        let c = choose|c: int| 0 <= c < seen.len() && seen[c] == v;
                        assert(seen_next[c] == v);
                    }
                    assert(seen_next.contains(v));
                }
                if seen_next.to_set().contains(v) {
                    if v == *key {
                        assert(keys@[p as int] == v);
                    } else {
                        let a = choose|a: int| 0 <= a < seen_next.len() && seen_next[a] == v;
                        assert(seen[a] == v);
                        assert(seen.to_set().contains(v));
                        assert(before.to_set().contains(v));
                        let b = choose|b: int| 0 <= b < before.len() && before[b] == v;
                        if b < p {
                            assert(keys@[b] == v);
                        } else {
                            assert(keys@[b + 1] == v);
                        }
                    }
                    assert(keys@.contains(v));
                }
            }
            assert(keys@.to_set() =~= seen_next.to_set());
        }
    }
    proof {
        let all = spec_keys_iter(map).remaining();
        assert(all.take(all.len() as int) =~= all);
        assert(all.map_values(|k: &u64| *k) =~= all.unref());
        assert(keys@.to_set() == map@.dom());
        assert(strictly_increasing(ascending_keys(map@.dom())) && ascending_keys(map@.dom()).to_set()
            == map@.dom());
        lemma_increasing_unique(keys@, ascending_keys(map@.dom()));
    }
    keys
}

/// The changes for the first `n` of `keys` (the keys of `new`): the
/// changes of an entry present in both, named under the entry, or an
/// `added` change for an entry only in `new`.
pub open spec fn changed_entries<V: Diffable>(
    old: Map<u64, V>,
    new: Map<u64, V>,
    keys: Seq<u64>,
    n: nat,
) -> Seq<Change>
    decreases n,
{
    if n == 0 {
        Seq::empty()
    } else {
        let k = keys[n - 1];
        let before = changed_entries(old, new, keys, (n - 1) as nat);
        if old.contains_key(k) {
            match old[k].spec_diff(&new[k]) {
                Some(ds) => before + ds.map_values(
                    |d: Change| (key_entry_name(k) + "."@ + d.0, d.1),
                ),
                None => before,
            }
        } else {
            before.push((key_entry_name(k), "added"@))
        }
    }
}

/// The `removed` changes for the first `n` of `keys` (the keys of `old`)
/// that `new` lacks.
pub open spec fn removed_entries<V>(old: Map<u64, V>, new: Map<u64, V>, keys: Seq<u64>, n: nat) -> Seq<
    Change,
>
    decreases n,
{
    if n == 0 {
        Seq::empty()
    } else {
        let k = keys[n - 1];
        let before = removed_entries(old, new, keys, (n - 1) as nat);
        if new.contains_key(k) {
            before
        } else {
            before.push((key_entry_name(k), "removed"@))
        }
    }
}

/// Every finite set of keys has its keys in increasing order.
#[verifier::spinoff_prover]
proof fn lemma_ascending_keys(keys: Set<u64>)
    requires
        keys.finite(),
    ensures
        strictly_increasing(ascending_keys(keys)),
        ascending_keys(keys).to_set() == keys,
    decreases keys.len(),
{
    broadcast use vstd::seq_lib::group_seq_properties;
    broadcast use vstd::set::group_set_axioms;

    if keys.len() == 0 {
        let w = Seq::<u64>::empty();
        assert(keys =~= Set::<u64>::empty());
        assert(w.to_set() =~= keys);
        assert(strictly_increasing(w) && w.to_set() == keys);
    } else {
        let leq = |a: u64, b: u64| a <= b;
        assert(vstd::relations::total_ordering(leq));
        keys.find_unique_maximal_ensures(leq);
        let m = keys.find_unique_maximal(leq);
        let rest = keys.remove(m);
        lemma_ascending_keys(rest);
        let r = ascending_keys(rest);
        let w = r.push(m);
        assert(vstd::relations::is_maximal(leq, m, keys));
        assert forall|i: int| 0 <= i < r.len() implies r[i] < m by {
            assert(r.to_set().contains(r[i]));
            assert(rest.contains(r[i]));
            assert(keys.contains(r[i]));
            assert(r[i] != m);
            if leq(m, r[i]) {
                assert(leq(r[i], m));
            }
        }
        assert(strictly_increasing(w)) by {
            assert forall|i: int, j: int| 0 <= i < j < w.len() implies w[i] < w[j] by {
                if j == r.len() {
                    assert(w[i] == r[i]);
                } else {
                    assert(w[i] == r[i] && w[j] == r[j]);
                }
            }
        }
        assert(w.to_set() =~= keys) by {
            assert forall|k: u64| w.to_set().contains(k) <==> keys.contains(k) by {
                if keys.contains(k) && k != m {
                    assert(rest.contains(k));
                    assert(r.to_set().contains(k));
                    let i = choose|i: int| 0 <= i < r.len() && r[i] == k;
                    assert(w[i] == k);
                }
                if keys.contains(k) && k == m {
                    assert(w[r.len() as int] == k);
                }
                if w.to_set().contains(k) {
                    let i = choose|i: int| 0 <= i < w.len() && w[i] == k;
                    if i < r.len() {
                        assert(r[i] == k);
                        assert(r.to_set().contains(k));
                    }
                }
            }
        }
    }
}

/// The entry changes of the first `n` of `keys` are none exactly when each
/// of those keys is in `old` and its entry compares equal.
proof fn lemma_changed_entries_empty<V: Diffable>(old: Map<u64, V>, new: Map<u64, V>, keys: Seq<u64>, n: nat)
    requires
        n <= keys.len(),
    ensures
        changed_entries(old, new, keys, n).len() == 0 <==> forall|i: int|
            0 <= i < n ==> old.contains_key(#[trigger] keys[i]) && old[keys[i]].spec_diff(
                &new[keys[i]],
            ) is None,
    decreases n,
{
    if n > 0 {
        lemma_changed_entries_empty(old, new, keys, (n - 1) as nat);
        let k = keys[n - 1];
        if old.contains_key(k) {
            old[k].lemma_diff_not_empty(&new[k]);
        }
    }
}

/// The removals among the first `n` of `keys` are none exactly when `new`
/// has each of those keys.
proof fn lemma_removed_entries_empty<V>(old: Map<u64, V>, new: Map<u64, V>, keys: Seq<u64>, n: nat)
    requires
        n <= keys.len(),
    ensures
        removed_entries(old, new, keys, n).len() == 0 <==> forall|i: int|
            0 <= i < n ==> new.contains_key(#[trigger] keys[i]),
    decreases n,
{
    if n > 0 {
        lemma_removed_entries_empty(old, new, keys, (n - 1) as nat);
    }
}

/// A map diff is `None` exactly when both maps have the same keys and every
/// entry compares equal with its counterpart.
pub proof fn lemma_map_diff_none<V: Diffable>(a: HashMap<u64, V>, b: HashMap<u64, V>)
    ensures
        a.spec_diff(&b) is None <==> (a@.dom() == b@.dom() && forall|k: u64|
            #[trigger] a@.contains_key(k) ==> a@[k].spec_diff(&b@[k]) is None),
{
    broadcast use vstd::std_specs::hash::group_hash_axioms;

    let new_keys = ascending_keys(b@.dom());
    let old_keys = ascending_keys(a@.dom());
    lemma_ascending_keys(b@.dom());
    lemma_ascending_keys(a@.dom());
    lemma_changed_entries_empty(a@, b@, new_keys, new_keys.len());
    lemma_removed_entries_empty(a@, b@, old_keys, old_keys.len());
    let changes = changed_entries(a@, b@, new_keys, new_keys.len()) + removed_entries(
        a@,
        b@,
        old_keys,
        old_keys.len(),
    );
    let same = a@.dom() == b@.dom() && forall|k: u64|
        #[trigger] a@.contains_key(k) ==> a@[k].spec_diff(&b@[k]) is None;
    if changes.len() == 0 {
        assert forall|k: u64| b@.contains_key(k) implies a@.contains_key(k) && a@[k].spec_diff(&b@[k]) is None by {
            assert(new_keys.to_set().contains(k));
            let i = choose|i: int| 0 <= i < new_keys.len() && new_keys[i] == k;
        }
        assert forall|k: u64| a@.contains_key(k) implies b@.contains_key(k) by {
            assert(old_keys.to_set().contains(k));
            let i = choose|i: int| 0 <= i < old_keys.len() && old_keys[i] == k;
        }
        assert(a@.dom() =~= b@.dom());
    }
    if same {
        assert forall|i: int| 0 <= i < new_keys.len() implies a@.contains_key(#[trigger] new_keys[i])
            && a@[new_keys[i]].spec_diff(&b@[new_keys[i]]) is None by {
            assert(new_keys.to_set().contains(new_keys[i]));
        }
        assert forall|i: int| 0 <= i < old_keys.len() implies b@.contains_key(#[trigger] old_keys[i]) by {
            assert(old_keys.to_set().contains(old_keys[i]));
        }
    }
}

/// The name a map entry gets in diffs.
fn entry_name(key: u64) -> (s: String)
    ensures
        s@ == key_entry_name(key),
{
    let mut s = String::from_str("[");
    push_decimal(&mut s, key);
    s.append("]");
    s
}

impl<V: Diffable> Diffable for HashMap<u64, V> {
    /// First the entries of `other` in increasing key order: changed entries
    /// with their changes, new entries as `added`; then the entries of `self`
    /// that `other` lacks, in increasing key order, as `removed`.
    open spec fn spec_diff(&self, other: &Self) -> Option<Seq<Change>> {
        let new_keys = ascending_keys(other@.dom());
        let old_keys = ascending_keys(self@.dom());
        let changes = changed_entries(self@, other@, new_keys, new_keys.len()) + removed_entries(
            self@,
            other@,
            old_keys,
            old_keys.len(),
        );
        if changes.len() == 0 {
            None
        } else {
            Some(changes)
        }
    }

    proof fn lemma_diff_not_empty(&self, other: &Self) {
    }

    open spec fn spec_name_of_type() -> Seq<char> {
        "HashMap"@
    }

    fn diff(&self, other: &Self) -> (r: Option<Vec<PropertyDiff>>) {
        broadcast use vstd::std_specs::hash::group_hash_axioms;
        broadcast use vstd::seq_lib::group_seq_properties;

        let mut changes: Vec<PropertyDiff> = Vec::new();
        let new_keys = sorted_keys(other);
        let mut i: usize = 0;
        while i < new_keys.len()
            invariant
                i <= new_keys@.len(),
                new_keys@ == ascending_keys(other@.dom()),
                new_keys@.to_set() == other@.dom(),
                changes_of(changes@) == changed_entries(self@, other@, new_keys@, i as nat),
            decreases new_keys@.len() - i,
        {
            let key = new_keys[i];
            let ghost before = changes@;
            assert(other@.contains_key(key)) by {
                assert(new_keys@.contains(key));
                assert(new_keys@.to_set().contains(key));
            }
            let new_value = other.get(&key).unwrap();
            match self.get(&key) {
                Some(old_value) => {
                    match old_value.diff(new_value) {
                        Some(list) => {
                            let ghost ds = changes_of(list@);
                            let mut k: usize = 0;
                            while k < list.len()
                                invariant
                                    k <= list@.len(),
                                    ds == changes_of(list@),
                                    changes_of(changes@) == changes_of(before) + ds.take(
                                        k as int,
                                    ).map_values(
                                        |d: Change| (key_entry_name(key) + "."@ + d.0, d.1),
                                    ),
                                decreases list@.len() - k,
                            {
                                let mut name = entry_name(key);
                                name.append(".");
                                name.append(list[k].property_name.as_str());
                                let value = list[k].new_value.clone();
                                let ghost prev = changes@;
                                changes.push(PropertyDiff { property_name: name, new_value: value });
                                k = k + 1;
                                proof {
                                    assert(changes_of(changes@) =~= changes_of(prev).push(
                                        change_of(changes@[changes@.len() - 1]),
                                    ));
                                    assert(ds.take(k as int) =~= ds.take(k - 1).push(ds[k - 1]));
                                    assert(changes_of(changes@) =~= changes_of(before) + ds.take(
                                        k as int,
                                    ).map_values(
                                        |d: Change| (key_entry_name(key) + "."@ + d.0, d.1),
                                    ));
                                }
                            }
                            proof {
                                assert(ds.take(list@.len() as int) =~= ds);
                            }
                        },
                        None => {},
                    }
                },
                None => {
                    changes.push(
                        PropertyDiff {
                            property_name: entry_name(key),
                            new_value: String::from_str("added"),
                        },
                    );
                    proof {
                        assert(changes_of(changes@) =~= changes_of(before).push(
                            (key_entry_name(key), "added"@),
                        ));
                    }
                },
            }
            i = i + 1;
        }
        let ghost first_part = changes@;
        let old_keys = sorted_keys(self);
        let mut j: usize = 0;
        while j < old_keys.len()
            invariant
                j <= old_keys@.len(),
                old_keys@ == ascending_keys(self@.dom()),
                new_keys@ == ascending_keys(other@.dom()),
                first_part == changes@.take(first_part.len() as int),
                changes_of(first_part) == changed_entries(
                    self@,
                    other@,
                    new_keys@,
                    new_keys@.len(),
                ),
                changes_of(changes@) == changes_of(first_part) + removed_entries(
                    self@,
                    other@,
                    old_keys@,
                    j as nat,
                ),
            decreases old_keys@.len() - j,
        {
            let key = old_keys[j];
            let ghost before = changes@;
            if !other.contains_key(&key) {
                changes.push(
                    PropertyDiff {
                        property_name: entry_name(key),
                        new_value: String::from_str("removed"),
                    },
                );
                proof {
                    assert(changes_of(changes@) =~= changes_of(before).push(
                        (key_entry_name(key), "removed"@),
                    ));
                    assert(changes@.take(first_part.len() as int) =~= before.take(
                        first_part.len() as int,
                    ));
                }
            }
            j = j + 1;
        }
        if changes.len() == 0 {
            None
        } else {
            Some(changes)
        }
    }

    fn name_of_type() -> (n: &'static str) {
        "HashMap"
    }

    /// Changes are not applied to maps.
    open spec fn spec_applied(&self, changes: Seq<Change>, after: Self, applied: bool) -> bool {
        after == *self && !applied
    }

    fn apply_diff(&mut self, changes: &[PropertyDiff]) -> (applied: bool) {
        false
    }
}

/// What one change does to an `i32` field called `field`: a change named
/// after the field sets it to the parsed value; a change named after the
/// field and a dot is applied to the field under the rest of its name.
pub open spec fn field_step_i32(value: i32, field: Seq<char>, c: Change) -> (i32, bool) {
    if c.0 == field {
        match ron_parsed_i32(c.1) {
            Some(v) => (v, true),
            None => (value, false),
        }
    } else if (field + "."@).is_prefix_of(c.0) {
        match first_parsed(seq![(c.0.subrange(field.len() + 1int, c.0.len() as int), c.1)], i32_parser()) {
            Some(v) => (v, true),
            None => (value, false),
        }
    } else {
        (value, false)
    }
}

/// Applies a change named `name` with text `text` to the `i32` field called
/// `field`; reports whether it applied.
pub fn apply_i32_change(value: &mut i32, field: &str, name: &str, text: &str) -> (applied: bool)
    ensures
        (*final(value), applied) == field_step_i32(*old(value), field@, (name@, text@)),
{
    if str_eq(name, field) {
        match ron_parse_i32(text) {
            Ok(v) => {
                *value = v;
                true
            },
            Err(_) => false,
        }
    } else {
        let mut prefix = String::from_str(field);
        prefix.append(".");
        if has_prefix(name, prefix.as_str()) {
            proof {
                reveal_strlit(".");
                assert(prefix@.len() == field@.len() + 1);
            }
            let field_len = field.unicode_len();
            let name_len = name.unicode_len();
            let rest = name.substring_char(field_len + 1, name_len);
            let mut sub: Vec<PropertyDiff> = Vec::new();
            sub.push(
                PropertyDiff {
                    property_name: String::from_str(rest),
                    new_value: String::from_str(text),
                },
            );
            proof {
                assert(changes_of(sub@) =~= seq![(name@.subrange(field@.len() + 1int, name@.len() as int), text@)]);
            }
            value.apply_diff(sub.as_slice())
        } else {
            false
        }
    }
}

/// Applying to `a` the changes from `a` to `b` gives `b`, for plain values
/// whose RON text the RON parser reads back (as its wrappers state).
pub proof fn lemma_apply_diff_restores(a: i32, b: i32, c: u64, d: u64, e: bool, f: bool)
    requires
        ron_parsed_i32(signed_decimal_text(b as int)) == Some(b),
        ron_parsed_u64(decimal_text(d as nat)) == Some(d),
        ron_parsed_bool("true"@) == Some(true),
        ron_parsed_bool("false"@) == Some(false),
    ensures
        match a.spec_diff(&b) {
            Some(cs) => a.spec_applied(cs, b, true),
            None => a == b,
        },
        match c.spec_diff(&d) {
            Some(cs) => c.spec_applied(cs, d, true),
            None => c == d,
        },
        match e.spec_diff(&f) {
            Some(cs) => e.spec_applied(cs, f, true),
            None => e == f,
        },
{
    let v = seq![("value"@, signed_decimal_text(b as int))];
    assert(v.drop_first().len() == 0);
    let w = seq![("value"@, decimal_text(d as nat))];
    assert(w.drop_first().len() == 0);
    let t = seq![("value"@, if f { "true"@ } else { "false"@ })];
    assert(t.drop_first().len() == 0);
}

/// The changes of one field of a struct, named after the field.
pub open spec fn field_changes(field: Seq<char>, diff: Option<Seq<Change>>) -> Seq<Change> {
    match diff {
        Some(ds) => ds.map_values(
            |d: Change|
                (
                    if d.0 == "value"@ {
                        field
                    } else {
                        field + "."@ + d.0
                    },
                    d.1,
                ),
        ),
        None => Seq::empty(),
    }
}

/// Appends the changes of one field of a struct to `changes`, naming each
/// after the field.
pub fn push_field_changes(
    changes: &mut Vec<PropertyDiff>,
    field: &str,
    diff: Option<Vec<PropertyDiff>>,
)
    ensures
        changes_of(final(changes)@) == changes_of(old(changes)@) + field_changes(
            field@,
            diff_view(diff),
        ),
{
    match diff {
        Some(list) => {
            let ghost ds = changes_of(list@);
            let ghost start = changes@;
            let mut k: usize = 0;
            while k < list.len()
                invariant
                    k <= list@.len(),
                    ds == changes_of(list@),
                    changes_of(changes@) == changes_of(start) + field_changes(
                        field@,
                        Some(ds.subrange(0, k as int)),
                    ),
                decreases list@.len() - k,
            {
                let name = if str_eq(list[k].property_name.as_str(), "value") {
                    String::from_str(field)
                } else {
                    let mut n = String::from_str(field);
                    n.append(".");
                    n.append(list[k].property_name.as_str());
                    n
                };
                let value = list[k].new_value.clone();
                let ghost prev = changes@;
                changes.push(PropertyDiff { property_name: name, new_value: value });
                k = k + 1;
                proof {
                    assert(changes_of(changes@) =~= changes_of(prev).push(
                        change_of(changes@[changes@.len() - 1]),
                    ));
                    assert(ds.subrange(0, k as int) =~= ds.subrange(0, k - 1).push(ds[k - 1]));
                    assert(changes_of(changes@) =~= changes_of(start) + field_changes(
                        field@,
                        Some(ds.subrange(0, k as int)),
                    ));
                }
            }
            proof {
                assert(ds.subrange(0, list@.len() as int) =~= ds);
            }
        },
        None => {
            proof {
                assert(changes_of(changes@) =~= changes_of(changes@) + Seq::<Change>::empty());
            }
        },
    }
}

/// A component diff as (entity, component type name, changes).
pub type DiffView = (Entity, Seq<char>, Seq<Change>);

/// The view of a component diff.
pub open spec fn diff_entry_view(d: ComponentDiff) -> DiffView {
    (d.entity_id, d.component_type@, changes_of(d.changes@))
}

/// The views of a list of component diffs.
pub open spec fn diff_entries_view(list: Seq<ComponentDiff>) -> Seq<DiffView> {
    list.map_values(|d: ComponentDiff| diff_entry_view(d))
}

/// The diff between two components of the same type, named after the type;
/// `None` when nothing changed. The entity is left at zero for the caller to set.
pub fn diff_components<V: Diffable>(old: &V, new: &V) -> (r: Option<ComponentDiff>)
    ensures
        match old.spec_diff(new) {
            Some(cs) => r matches Some(d) && diff_entry_view(d) == (
                0u32,
                V::spec_name_of_type(),
                cs,
            ),
            None => r is None,
        },
{
    match old.diff(new) {
        Some(changes) => Some(
            ComponentDiff {
                entity_id: 0,
                component_type: String::from_str(V::name_of_type()),
                changes,
            },
        ),
        None => None,
    }
}

/// The snapshot taken of a component: which entity, which component type,
/// and a copy of the component.
pub type Snapshot<V> = (Entity, ComponentTypeId, V);

/// The (entity, component type) pairs, in order, of the components that
/// `entity` has among the first `k` of `types`.
pub open spec fn entity_snapshot_keys<V>(
    comps: Map<ComponentTypeId, Map<Entity, V>>,
    entity: Entity,
    types: Seq<ComponentTypeId>,
    k: nat,
) -> Seq<(Entity, ComponentTypeId)>
    decreases k,
{
    if k == 0 {
        Seq::empty()
    } else {
        let before = entity_snapshot_keys(comps, entity, types, (k - 1) as nat);
        if has_in(comps, types[k - 1], entity) {
            before.push((entity, types[k - 1]))
        } else {
            before
        }
    }
}

/// The (entity, component type) pairs, entity by entity, of the components
/// of the listed types that the first `n` listed entities have.
pub open spec fn snapshot_keys<V>(
    comps: Map<ComponentTypeId, Map<Entity, V>>,
    entities: Seq<Entity>,
    types: Seq<ComponentTypeId>,
    n: nat,
) -> Seq<(Entity, ComponentTypeId)>
    decreases n,
{
    if n == 0 {
        Seq::empty()
    } else {
        snapshot_keys(comps, entities, types, (n - 1) as nat) + entity_snapshot_keys(
            comps,
            entities[n - 1],
            types,
            types.len(),
        )
    }
}

/// The keys of a list of snapshots.
pub open spec fn keys_of<V>(snaps: Seq<Snapshot<V>>) -> Seq<(Entity, ComponentTypeId)> {
    snaps.map_values(|s: Snapshot<V>| (s.0, s.1))
}

/// The first snapshot of the `type_id` component of `entity`.
pub open spec fn snapshot_of<V>(snaps: Seq<Snapshot<V>>, entity: Entity, type_id: ComponentTypeId) -> Option<V>
    decreases snaps.len(),
{
    if snaps.len() == 0 {
        None
    } else if snaps[0].0 == entity && snaps[0].1 == type_id {
        Some(snaps[0].2)
    } else {
        snapshot_of(snaps.drop_first(), entity, type_id)
    }
}

/// What changed in the `type_id` component of `entity` since its snapshot;
/// `None` without a snapshot, without a current component, or without change.
pub open spec fn component_change<V: Diffable>(
    snaps: Seq<Snapshot<V>>,
    comps: Map<ComponentTypeId, Map<Entity, V>>,
    entity: Entity,
    type_id: ComponentTypeId,
) -> Option<Seq<Change>> {
    match snapshot_of(snaps, entity, type_id) {
        Some(before) => if has_in(comps, type_id, entity) {
            before.spec_diff(&comps[type_id][entity])
        } else {
            None
        },
        None => None,
    }
}

/// The diffs of `entity`'s components among the first `k` of `types`.
pub open spec fn entity_diffs<V: Diffable>(
    snaps: Seq<Snapshot<V>>,
    comps: Map<ComponentTypeId, Map<Entity, V>>,
    entity: Entity,
    types: Seq<ComponentTypeId>,
    k: nat,
) -> Seq<DiffView>
    decreases k,
{
    if k == 0 {
        Seq::empty()
    } else {
        let before = entity_diffs(snaps, comps, entity, types, (k - 1) as nat);
        match component_change(snaps, comps, entity, types[k - 1]) {
            Some(cs) => before.push((entity, V::spec_name_of_type(), cs)),
            None => before,
        }
    }
}

/// The diffs, entity by entity, of the first `n` listed entities.
pub open spec fn frame_diffs<V: Diffable>(
    snaps: Seq<Snapshot<V>>,
    comps: Map<ComponentTypeId, Map<Entity, V>>,
    entities: Seq<Entity>,
    types: Seq<ComponentTypeId>,
    n: nat,
) -> Seq<DiffView>
    decreases n,
{
    if n == 0 {
        Seq::empty()
    } else {
        frame_diffs(snaps, comps, entities, types, (n - 1) as nat) + entity_diffs(
            snaps,
            comps,
            entities[n - 1],
            types,
            types.len(),
        )
    }
}

/// Every diff a tracker records for a frame belongs to one of the listed
/// entities and holds at least one change.
pub proof fn lemma_frame_diffs_not_empty<V: Diffable>(
    snaps: Seq<Snapshot<V>>,
    comps: Map<ComponentTypeId, Map<Entity, V>>,
    entities: Seq<Entity>,
    types: Seq<ComponentTypeId>,
    n: nat,
)
    requires
        n <= entities.len(),
    ensures
        forall|i: int|
            0 <= i < frame_diffs(snaps, comps, entities, types, n).len() ==> {
                let d = #[trigger] frame_diffs(snaps, comps, entities, types, n)[i];
                &&& entities.contains(d.0)
                &&& d.2.len() > 0
            },
    decreases n,
{
    if n > 0 {
        lemma_frame_diffs_not_empty(snaps, comps, entities, types, (n - 1) as nat);
        let e = entities[n - 1];
        lemma_entity_diffs_not_empty(snaps, comps, e, types, types.len());
        assert(entities.contains(e)) by {
            assert(entities[n - 1] == e);
        }
        let before = frame_diffs(snaps, comps, entities, types, (n - 1) as nat);
        let mine = entity_diffs(snaps, comps, e, types, types.len());
        assert forall|i: int| 0 <= i < (before + mine).len() implies ({
            let d = #[trigger] (before + mine)[i];
            &&& entities.contains(d.0)
            &&& d.2.len() > 0
        }) by {
            if i >= before.len() {
                assert((before + mine)[i] == mine[i - before.len()]);
            } else {
                assert((before + mine)[i] == before[i]);
            }
        }
    }
}

proof fn lemma_entity_diffs_not_empty<V: Diffable>(
    snaps: Seq<Snapshot<V>>,
    comps: Map<ComponentTypeId, Map<Entity, V>>,
    entity: Entity,
    types: Seq<ComponentTypeId>,
    k: nat,
)
    requires
        k <= types.len(),
    ensures
        forall|i: int|
            0 <= i < entity_diffs(snaps, comps, entity, types, k).len() ==> {
                let d = #[trigger] entity_diffs(snaps, comps, entity, types, k)[i];
                &&& d.0 == entity
                &&& d.2.len() > 0
            },
    decreases k,
{
    if k > 0 {
        lemma_entity_diffs_not_empty(snaps, comps, entity, types, (k - 1) as nat);
        let t = types[k - 1];
        match snapshot_of(snaps, entity, t) {
            Some(before) => {
                if has_in(comps, t, entity) {
                    before.lemma_diff_not_empty(&comps[t][entity]);
                }
            },
            None => {},
        }
        let before = entity_diffs(snaps, comps, entity, types, (k - 1) as nat);
        let all = entity_diffs(snaps, comps, entity, types, k);
        assert forall|i: int| 0 <= i < all.len() implies ({
            let d = #[trigger] all[i];
            &&& d.0 == entity
            &&& d.2.len() > 0
        }) by {
            if i < before.len() {
                assert(all[i] == before[i]);
            }
        }
    }
}

/// The component snapshots a tracker took before the current system ran.
pub struct SnapshotStore<V> {
    entries: Vec<Snapshot<V>>,
}

/// Records, frame by frame, how systems change components.
pub struct DebugTracker<V> {
    pub enabled: bool,
    pub frame_number: u64,
    pub diff_history: Vec<SystemDiffRecord>,
    pub component_snapshots: SnapshotStore<V>,
}

impl<V> DebugTracker<V> {
    /// The snapshots taken before the current system ran.
    pub closed spec fn spec_snapshots(&self) -> Seq<Snapshot<V>> {
        self.component_snapshots.entries@
    }

    /// Whether tracking is on.
    pub open spec fn spec_enabled(&self) -> bool {
        self.enabled
    }

    /// The current frame.
    pub open spec fn spec_frame_number(&self) -> u64 {
        self.frame_number
    }

    /// The recorded diffs, oldest first.
    pub open spec fn spec_history(&self) -> Seq<SystemDiffRecord> {
        self.diff_history@
    }

    /// A disabled tracker at frame zero with no history.
    pub fn new() -> (t: Self)
        ensures
            !t.spec_enabled(),
            t.spec_frame_number() == 0,
            t.spec_history() == Seq::<SystemDiffRecord>::empty(),
            t.spec_snapshots() == Seq::<Snapshot<V>>::empty(),
    {
        DebugTracker {
            enabled: false,
            frame_number: 0,
            diff_history: Vec::new(),
            component_snapshots: SnapshotStore { entries: Vec::new() },
        }
    }

    /// Turns tracking on.
    pub fn enable(&mut self)
        ensures
            final(self).spec_enabled(),
            final(self).spec_frame_number() == old(self).spec_frame_number(),
            final(self).spec_history() == old(self).spec_history(),
            final(self).spec_snapshots() == old(self).spec_snapshots(),
    {
        self.enabled = true;
    }

    /// Turns tracking off.
    pub fn disable(&mut self)
        ensures
            !final(self).spec_enabled(),
            final(self).spec_frame_number() == old(self).spec_frame_number(),
            final(self).spec_history() == old(self).spec_history(),
            final(self).spec_snapshots() == old(self).spec_snapshots(),
    {
        self.enabled = false;
    }

    /// Moves on to the next frame.
    pub fn next_frame(&mut self)
        requires
            old(self).spec_frame_number() < u64::MAX,
        ensures
            final(self).spec_frame_number() == old(self).spec_frame_number() + 1,
            final(self).spec_enabled() == old(self).spec_enabled(),
            final(self).spec_history() == old(self).spec_history(),
            final(self).spec_snapshots() == old(self).spec_snapshots(),
    {
        self.frame_number = self.frame_number + 1;
    }

    /// Forgets all recorded diffs.
    pub fn clear_history(&mut self)
        ensures
            final(self).spec_history() == Seq::<SystemDiffRecord>::empty(),
            final(self).spec_enabled() == old(self).spec_enabled(),
            final(self).spec_frame_number() == old(self).spec_frame_number(),
            final(self).spec_snapshots() == old(self).spec_snapshots(),
    {
        self.diff_history.clear();
    }
}

impl<V: Clone> DebugTracker<V> {
    /// Replaces the snapshots with a copy of each listed component type of
    /// each listed entity that the world holds; does nothing while disabled.
    pub fn snapshot_components(
        &mut self,
        world: &World<V>,
        entities: &[Entity],
        mutable_types: &[ComponentTypeId],
    )
        ensures
            !old(self).spec_enabled() ==> *final(self) == *old(self),
            old(self).spec_enabled() ==> {
                let comps = world.spec_components();
                let snaps = final(self).spec_snapshots();
                &&& final(self).spec_enabled() == old(self).spec_enabled()
                &&& final(self).spec_frame_number() == old(self).spec_frame_number()
                &&& final(self).spec_history() == old(self).spec_history()
                &&& keys_of(snaps) == snapshot_keys(
                    comps,
                    entities@,
                    mutable_types@,
                    entities@.len(),
                )
                &&& forall|j: int|
                    0 <= j < snaps.len() ==> has_in(comps, #[trigger] snaps[j].1, snaps[j].0)
                        && cloned(comps[snaps[j].1][snaps[j].0], snaps[j].2)
            },
    {
        if !self.enabled {
            return;
        }
        self.component_snapshots.entries.clear();
        let ghost comps = world.spec_components();
        let ghost types = mutable_types@;
        let mut i: usize = 0;
        while i < entities.len()
            invariant
                i <= entities@.len(),
                comps == world.spec_components(),
                types == mutable_types@,
                self.enabled == old(self).enabled,
                self.frame_number == old(self).frame_number,
                self.diff_history == old(self).diff_history,
                keys_of(self.component_snapshots.entries@) == snapshot_keys(
                    comps,
                    entities@,
                    types,
                    i as nat,
                ),
                forall|j: int|
                    0 <= j < self.component_snapshots.entries@.len() ==> has_in(
                        comps,
                        #[trigger] self.component_snapshots.entries@[j].1,
                        self.component_snapshots.entries@[j].0,
                    ) && cloned(
                        comps[self.component_snapshots.entries@[j].1][self.component_snapshots.entries@[j].0],
                        self.component_snapshots.entries@[j].2,
                    ),
            decreases entities@.len() - i,
        {
            let e = entities[i];
            let ghost base = snapshot_keys(comps, entities@, types, i as nat);
            let mut k: usize = 0;
            while k < mutable_types.len()
                invariant
                    k <= types.len(),
                    i < entities@.len(),
                    e == entities@[i as int],
                    comps == world.spec_components(),
                    types == mutable_types@,
                    base == snapshot_keys(comps, entities@, types, i as nat),
                    self.enabled == old(self).enabled,
                    self.frame_number == old(self).frame_number,
                    self.diff_history == old(self).diff_history,
                    keys_of(self.component_snapshots.entries@) == base + entity_snapshot_keys(
                        comps,
                        e,
                        types,
                        k as nat,
                    ),
                    forall|j: int|
                        0 <= j < self.component_snapshots.entries@.len() ==> has_in(
                            comps,
                            #[trigger] self.component_snapshots.entries@[j].1,
                            self.component_snapshots.entries@[j].0,
                        ) && cloned(
                            comps[self.component_snapshots.entries@[j].1][self.component_snapshots.entries@[j].0],
                            self.component_snapshots.entries@[j].2,
                        ),
                decreases types.len() - k,
            {
                let t = mutable_types[k];
                let ghost prev = self.component_snapshots.entries@;
                match world.get_component(e, t) {
                    Some(c) => {
                        let copy = c.clone();
                        self.component_snapshots.entries.push((e, t, copy));
                        proof {
                            assert(keys_of(self.component_snapshots.entries@) =~= keys_of(prev).push(
                                (e, t),
                            ));
                        }
                    },
                    None => {},
                }
                k = k + 1;
            }
            i = i + 1;
        }
    }
}

impl<V: Diffable> DebugTracker<V> {
    /// The first snapshot of the `type_id` component of `entity`.
    fn find_snapshot(&self, entity: Entity, type_id: ComponentTypeId) -> (r: Option<&V>)
        ensures
            match r {
                Some(v) => snapshot_of(self.spec_snapshots(), entity, type_id) == Some(*v),
                None => snapshot_of(self.spec_snapshots(), entity, type_id) is None,
            },
    {
        let ghost snaps = self.component_snapshots.entries@;
        assert(snaps.subrange(0, snaps.len() as int) =~= snaps);
        let mut i: usize = 0;
        while i < self.component_snapshots.entries.len()
            invariant
                snaps == self.component_snapshots.entries@,
                i <= snaps.len(),
                snapshot_of(snaps, entity, type_id) == snapshot_of(
                    snaps.subrange(i as int, snaps.len() as int),
                    entity,
                    type_id,
                ),
            decreases snaps.len() - i,
        {
            let ghost rest = snaps.subrange(i as int, snaps.len() as int);
            assert(rest[0] == snaps[i as int]);
            if self.component_snapshots.entries[i].0 == entity && self.component_snapshots.entries[i].1 == type_id {
                return Some(&self.component_snapshots.entries[i].2);
            }
            assert(snaps.subrange(i + 1, snaps.len() as int) =~= rest.drop_first());
            i = i + 1;
        }
        None
    }

    /// Compares the listed components with their snapshots and, when any
    /// changed, records the changes under `system_name` and the current
    /// frame; does nothing while disabled.
    pub fn record_diffs(
        &mut self,
        world: &World<V>,
        system_name: &str,
        entities: &[Entity],
        mutable_types: &[ComponentTypeId],
    )
        ensures
            !old(self).spec_enabled() ==> *final(self) == *old(self),
            old(self).spec_enabled() ==> {
                let ds = frame_diffs(
                    old(self).spec_snapshots(),
                    world.spec_components(),
                    entities@,
                    mutable_types@,
                    entities@.len(),
                );
                let before = old(self).spec_history();
                let after = final(self).spec_history();
                &&& final(self).spec_enabled() == old(self).spec_enabled()
                &&& final(self).spec_frame_number() == old(self).spec_frame_number()
                &&& final(self).spec_snapshots() == old(self).spec_snapshots()
                &&& ds.len() == 0 ==> after == before
                &&& ds.len() > 0 ==> {
                    &&& after.len() == before.len() + 1
                    &&& after.take(before.len() as int) == before
                    &&& after.last().frame_number == old(self).spec_frame_number()
                    &&& after.last().system_name@ == system_name@
                    &&& diff_entries_view(after.last().component_diffs@) == ds
                }
            },
    {
        if !self.enabled {
            return;
        }
        let ghost snaps = self.component_snapshots.entries@;
        let ghost comps = world.spec_components();
        let ghost types = mutable_types@;
        let mut diffs: Vec<ComponentDiff> = Vec::new();
        let mut i: usize = 0;
        while i < entities.len()
            invariant
                i <= entities@.len(),
                snaps == self.component_snapshots.entries@,
                comps == world.spec_components(),
                types == mutable_types@,
                diff_entries_view(diffs@) == frame_diffs(snaps, comps, entities@, types, i as nat),
            decreases entities@.len() - i,
        {
            let e = entities[i];
            let ghost base = frame_diffs(snaps, comps, entities@, types, i as nat);
            let mut k: usize = 0;
            while k < mutable_types.len()
                invariant
                    k <= types.len(),
                    i < entities@.len(),
                    e == entities@[i as int],
                    snaps == self.component_snapshots.entries@,
                    comps == world.spec_components(),
                    types == mutable_types@,
                    base == frame_diffs(snaps, comps, entities@, types, i as nat),
                    diff_entries_view(diffs@) == base + entity_diffs(snaps, comps, e, types, k as nat),
                decreases types.len() - k,
            {
                let t = mutable_types[k];
                let ghost prev = diffs@;
                match self.find_snapshot(e, t) {
                    Some(before) => match world.get_component(e, t) {
                        Some(now) => match diff_components(before, now) {
                            Some(d) => {
                                let mut d = d;
                                d.entity_id = e;
                                diffs.push(d);
                                proof {
                                    assert(diff_entries_view(diffs@) =~= diff_entries_view(
                                        prev,
                                    ).push(diff_entry_view(d)));
                                }
                            },
                            None => {},
                        },
                        None => {},
                    },
                    None => {},
                }
                k = k + 1;
            }
            i = i + 1;
        }
        if diffs.len() > 0 {
            let ghost before = self.diff_history@;
            let record = SystemDiffRecord {
                frame_number: self.frame_number,
                system_name: String::from_str(system_name),
                component_diffs: diffs,
            };
            self.diff_history.push(record);
            proof {
                assert(self.diff_history@.take(before.len() as int) =~= before);
            }
        } else {
            proof {
                assert(diff_entries_view(diffs@).len() == 0);
            }
        }
    }
}

/// The history line of one changed property.
pub open spec fn change_line(c: Change) -> Seq<char> {
    "    "@ + c.0 + " -> "@ + c.1 + "\n"@
}

/// The history lines of a list of changed properties.
pub open spec fn changes_text(cs: Seq<Change>) -> Seq<char>
    decreases cs.len(),
{
    if cs.len() == 0 {
        Seq::empty()
    } else {
        changes_text(cs.drop_last()) + change_line(cs.last())
    }
}

/// The history lines of changes are one line `    name -> value` per change,
/// in order: none for no change, and one more change adds its line at the
/// end; so the text is as long as its lines together.
pub proof fn lemma_changes_text_lines(cs: Seq<Change>, c: Change)
    ensures
        changes_text(Seq::<Change>::empty()) == Seq::<char>::empty(),
        changes_text(cs.push(c)) == changes_text(cs) + "    "@ + c.0 + " -> "@ + c.1 + "\n"@,
        changes_text(cs.push(c)).len() == changes_text(cs).len() + c.0.len() + c.1.len() + 9,
{
    reveal_strlit("    ");
    reveal_strlit(" -> ");
    reveal_strlit("\n");
    assert(cs.push(c).drop_last() =~= cs);
    assert(changes_text(cs.push(c)) =~= changes_text(cs) + "    "@ + c.0 + " -> "@ + c.1 + "\n"@);
}

/// The history text of one component diff.
pub open spec fn component_diff_text(d: DiffView) -> Seq<char> {
    "  Entity "@ + decimal_text(d.0 as nat) + ": "@ + d.1 + " changed\n"@ + changes_text(d.2)
}

/// The history text of a list of component diffs.
pub open spec fn component_diffs_text(ds: Seq<DiffView>) -> Seq<char>
    decreases ds.len(),
{
    if ds.len() == 0 {
        Seq::empty()
    } else {
        component_diffs_text(ds.drop_last()) + component_diff_text(ds.last())
    }
}

/// The history text of one record: its heading, its diffs and a blank line.
pub open spec fn record_text(r: SystemDiffRecord) -> Seq<char> {
    "Frame "@ + decimal_text(r.frame_number as nat) + ": System '"@ + r.system_name@ + "'\n"@
        + component_diffs_text(diff_entries_view(r.component_diffs@)) + "\n"@
}

/// The history text of a list of records.
pub open spec fn history_text(rs: Seq<SystemDiffRecord>) -> Seq<char>
    decreases rs.len(),
{
    if rs.len() == 0 {
        Seq::empty()
    } else {
        history_text(rs.drop_last()) + record_text(rs.last())
    }
}

/// The history text holds each record in order: no text for no record, and
/// one more record adds, at the end, its heading `Frame n: System 'name'`,
/// one block per component diff (an `Entity e: Type changed` line followed
/// by its change lines) and a blank line.
pub proof fn lemma_history_text_blocks(rs: Seq<SystemDiffRecord>, r: SystemDiffRecord, ds: Seq<DiffView>, d: DiffView)
    ensures
        history_text(Seq::<SystemDiffRecord>::empty()) == Seq::<char>::empty(),
        history_text(rs.push(r)) == history_text(rs) + "Frame "@ + decimal_text(
            r.frame_number as nat,
        ) + ": System '"@ + r.system_name@ + "'\n"@ + component_diffs_text(
            diff_entries_view(r.component_diffs@),
        ) + "\n"@,
        component_diffs_text(Seq::<DiffView>::empty()) == Seq::<char>::empty(),
        component_diffs_text(ds.push(d)) == component_diffs_text(ds) + "  Entity "@ + decimal_text(
            d.0 as nat,
        ) + ": "@ + d.1 + " changed\n"@ + changes_text(d.2),
{
    assert(rs.push(r).drop_last() =~= rs);
    assert(ds.push(d).drop_last() =~= ds);
    assert(history_text(rs.push(r)) =~= history_text(rs) + "Frame "@ + decimal_text(
        r.frame_number as nat,
    ) + ": System '"@ + r.system_name@ + "'\n"@ + component_diffs_text(
        diff_entries_view(r.component_diffs@),
    ) + "\n"@);
    assert(component_diffs_text(ds.push(d)) =~= component_diffs_text(ds) + "  Entity "@
        + decimal_text(d.0 as nat) + ": "@ + d.1 + " changed\n"@ + changes_text(d.2));
}

/// Appends the lines of `changes` to `out`.
fn push_changes_text(out: &mut String, changes: &Vec<PropertyDiff>)
    ensures
        final(out)@ == old(out)@ + changes_text(changes_of(changes@)),
{
    let ghost cs = changes_of(changes@);
    let mut k: usize = 0;
    while k < changes.len()
        invariant
            k <= changes@.len(),
            cs == changes_of(changes@),
            out@ == old(out)@ + changes_text(cs.take(k as int)),
        decreases changes@.len() - k,
    {
        let ghost prev = out@;
        out.append("    ");
        out.append(changes[k].property_name.as_str());
        out.append(" -> ");
        out.append(changes[k].new_value.as_str());
        out.append("\n");
        proof {
            assert(cs.take(k + 1).drop_last() =~= cs.take(k as int));
            assert(out@ =~= prev + change_line(cs[k as int]));
        }
        k = k + 1;
    }
    proof {
        assert(cs.take(changes@.len() as int) =~= cs);
    }
}

/// Appends the history text of `diffs` to `out`.
fn push_component_diffs_text(out: &mut String, diffs: &Vec<ComponentDiff>)
    ensures
        final(out)@ == old(out)@ + component_diffs_text(diff_entries_view(diffs@)),
{
    let ghost ds = diff_entries_view(diffs@);
    let mut k: usize = 0;
    while k < diffs.len()
        invariant
            k <= diffs@.len(),
            ds == diff_entries_view(diffs@),
            out@ == old(out)@ + component_diffs_text(ds.take(k as int)),
        decreases diffs@.len() - k,
    {
        let ghost prev = out@;
        out.append("  Entity ");
        push_decimal(out, diffs[k].entity_id as u64);
        out.append(": ");
        out.append(diffs[k].component_type.as_str());
        out.append(" changed\n");
        push_changes_text(out, &diffs[k].changes);
        proof {
            assert(ds.take(k + 1).drop_last() =~= ds.take(k as int));
            assert(out@ =~= prev + component_diff_text(ds[k as int]));
        }
        k = k + 1;
    }
    proof {
        assert(ds.take(diffs@.len() as int) =~= ds);
    }
}

impl<V> DebugTracker<V> {
    /// The recorded history as text: per record a heading with frame and
    /// system, then per component diff a line with entity and type, and per
    /// change a line with property and new value; a blank line ends each record.
    pub fn get_diff_history_formatted(&self) -> (r: String)
        ensures
            r@ == history_text(self.spec_history()),
    {
        let mut output = String::new();
        let ghost rs = self.diff_history@;
        let mut i: usize = 0;
        while i < self.diff_history.len()
            invariant
                i <= rs.len(),
                rs == self.diff_history@,
                output@ == history_text(rs.take(i as int)),
            decreases rs.len() - i,
        {
            let ghost prev = output@;
            let record = &self.diff_history[i];
            output.append("Frame ");
            push_decimal(&mut output, record.frame_number);
            output.append(": System '");
            output.append(record.system_name.as_str());
            output.append("'\n");
            push_component_diffs_text(&mut output, &record.component_diffs);
            output.append("\n");
            proof {
                assert(rs.take(i + 1).drop_last() =~= rs.take(i as int));
                assert(output@ =~= prev + record_text(rs[i as int]));
            }
            i = i + 1;
        }
        proof {
            assert(rs.take(rs.len() as int) =~= rs);
        }
        output
    }
}

} // verus!
