//! Selections allow picking a static or dynamic subset of fixtures based on the user's whim.

use vstd::prelude::*;
use std::collections::BTreeSet;
use crate::fixtures::fixture::{Fixture, FixtureRef};
use crate::show::show::{Show, fixture_uuids};

verus! {

broadcast use vstd::std_specs::btree::group_btree_axioms;

/// A selection describes a user-defined set of fixtures. It may be a fixed group of fixtures,
/// or updated dynamically based on some filter. For example, you can match fixtures of a
/// certain brand or with a certain name.
///
/// Selections are used to define fixture groups, to define event outputs, and wherever else
/// a dynamic set of fixtures is needed.
pub trait Selection {
    /// [Selection::fixtures] can list this selection's fixtures.
    spec fn lists_fixtures(&self) -> bool;

    /// [Selection::update] can resolve this selection against a show.
    spec fn updatable(&self) -> bool;

    fn name(&self) -> &str;

    /// Whether [Selection::fixtures] can list this selection's fixtures.
    fn can_list_fixtures(&self) -> (r: bool)
        ensures
            r == self.lists_fixtures(),
    ;

    /// Whether [Selection::update] can ever resolve this kind of selection: `false` means that
    /// it cannot. A `true` answer leaves open what a user-supplied filter accepts.
    fn can_update(&self) -> (r: bool)
        ensures
            !r ==> !self.updatable(),
    ;

    /// Get the list of fixtures represented by this selection. This may be outdated if
    /// [Selection::update] is not called after a fixture change.
    fn fixtures(&self) -> &[FixtureRef]
        requires
            self.lists_fixtures(),
    ;

    /// Update the list of fixtures stored internally. Called when fixtures change.
    fn update(&mut self, show: &Show)
        requires
            old(self).updatable(),
    ;
}

/// A selection where the list of fixtures is predefined
#[derive(Debug)]
pub struct StrictSelection {
    pub name: String,
    pub fixtures: Vec<FixtureRef>,
}

impl Selection for StrictSelection {
    open spec fn lists_fixtures(&self) -> bool {
        true
    }

    open spec fn updatable(&self) -> bool {
        true
    }

    fn name(&self) -> (r: &str)
        ensures
            r@ == self.name@,
    {
        self.name.as_str()
    }

    fn can_list_fixtures(&self) -> (r: bool) {
        true
    }

    fn can_update(&self) -> (r: bool) {
        true
    }

    fn fixtures(&self) -> (r: &[FixtureRef])
        ensures
            r@ == self.fixtures@,
    {
        self.fixtures.as_slice()
    }

    /// A predefined list does not change with the show.
    fn update(&mut self, show: &Show)
        ensures
            final(self).name == old(self).name,
            final(self).fixtures@ == old(self).fixtures@,
    {
    }
}

/// A recursive filter for fixtures
pub enum Filter<P> {
    All,
    Not(Box<Filter<P>>),
    And(Vec<Filter<P>>),
    Or(Vec<Filter<P>>),
    /// A function that returns `true` if a fixture should be included in a given selection
    Predicate(P),
}

/// `r` is a possible outcome of `filter` on `fixture`: the filters combine as their names say,
/// and a predicate may give any result that its contract allows.
pub open spec fn filter_outcome<P: Fn(&Fixture) -> bool>(filter: Filter<P>, fixture: Fixture, r: bool) -> bool
    decreases filter,
{
    match filter {
        Filter::All => r,
        Filter::Not(f) => filter_outcome(*f, fixture, !r),
        Filter::And(fs) => if r {
            forall|i: int| 0 <= i < fs@.len() ==> filter_outcome(#[trigger] fs@[i], fixture, true)
        } else {
            exists|i: int| 0 <= i < fs@.len() && filter_outcome(#[trigger] fs@[i], fixture, false)
        },
        Filter::Or(fs) => if r {
            exists|i: int| 0 <= i < fs@.len() && filter_outcome(#[trigger] fs@[i], fixture, true)
        } else {
            forall|i: int| 0 <= i < fs@.len() ==> filter_outcome(#[trigger] fs@[i], fixture, false)
        },
        Filter::Predicate(p) => call_ensures(p, (&fixture,), r),
    }
}

/// How the filters combine: `All` accepts every fixture; `Not` gives the opposite of its filter;
/// an `And` filter accepts a fixture only if every one of its filters accepts it, and refuses it
/// only if one of them refuses it; an `Or` filter accepts a fixture only if one of its filters
/// accepts it, and refuses it only if every one of them refuses it.
pub proof fn lemma_filter_combinators<P: Fn(&Fixture) -> bool>(fs: Vec<Filter<P>>, f: Box<Filter<P>>, fixture: Fixture, r: bool)
    ensures
        filter_outcome(Filter::<P>::All, fixture, r) ==> r,
        filter_outcome(Filter::Not(f), fixture, r) ==> filter_outcome(*f, fixture, !r),
        filter_outcome(Filter::And(fs), fixture, true) ==>
            forall|i: int| 0 <= i < fs@.len() ==> filter_outcome(#[trigger] fs@[i], fixture, true),
        filter_outcome(Filter::And(fs), fixture, false) ==>
            exists|i: int| 0 <= i < fs@.len() && filter_outcome(#[trigger] fs@[i], fixture, false),
        filter_outcome(Filter::Or(fs), fixture, true) ==>
            exists|i: int| 0 <= i < fs@.len() && filter_outcome(#[trigger] fs@[i], fixture, true),
        filter_outcome(Filter::Or(fs), fixture, false) ==>
            forall|i: int| 0 <= i < fs@.len() ==> filter_outcome(#[trigger] fs@[i], fixture, false),
{
    if filter_outcome(Filter::And(fs), fixture, true) {
        let g = Filter::<P>::And(fs);
        assert(g matches Filter::And(gs) && gs == fs);
        assert forall|i: int| 0 <= i < fs@.len() implies filter_outcome(#[trigger] fs@[i], fixture, true) by {
            assert(filter_outcome(g, fixture, true));
        }
    }
    if filter_outcome(Filter::Or(fs), fixture, false) {
        let g = Filter::<P>::Or(fs);
        assert(g matches Filter::Or(gs) && gs == fs);
        assert forall|i: int| 0 <= i < fs@.len() implies filter_outcome(#[trigger] fs@[i], fixture, false) by {
            assert(filter_outcome(g, fixture, false));
        }
    }
}

/// Every predicate of `filter` accepts `fixture` as input.
pub open spec fn filter_callable<P: Fn(&Fixture) -> bool>(filter: Filter<P>, fixture: Fixture) -> bool
    decreases filter,
{
    match filter {
        Filter::All => true,
        Filter::Not(f) => filter_callable(*f, fixture),
        Filter::And(fs) => forall|i: int| 0 <= i < fs@.len() ==> filter_callable(#[trigger] fs@[i], fixture),
        Filter::Or(fs) => forall|i: int| 0 <= i < fs@.len() ==> filter_callable(#[trigger] fs@[i], fixture),
        Filter::Predicate(p) => call_requires(p, (&fixture,)),
    }
}

impl<P: Fn(&Fixture) -> bool> Filter<P> {
    /// Whether `fixture` passes the filter. `And` and `Or` stop at the first filter that decides.
    pub fn eval(&self, fixture: &Fixture) -> (r: bool)
        requires
            filter_callable(*self, *fixture),
        ensures
            filter_outcome(*self, *fixture, r),
        decreases self,
    {
        match self {
            Filter::All => true,
            Filter::Not(f) => !f.eval(fixture),
            Filter::And(fs) => {
                let mut i: usize = 0;
                while i < fs.len()
                    invariant
                        i <= fs@.len(),
                        *self == Filter::<P>::And(*fs),
                        forall|j: int| 0 <= j < fs@.len() ==> filter_callable(#[trigger] fs@[j], *fixture),
                        forall|j: int| 0 <= j < i ==> filter_outcome(#[trigger] fs@[j], *fixture, true),
                    decreases fs.len() - i,
                {
                    proof {
                        assert(decreases_to!(*self => (*self)->And_0));
                        assert(decreases_to!(*fs => fs@));
                        assert(decreases_to!(fs@ => fs@[i as int]));
                    }
                    let b = fs[i].eval(fixture);
                    if !b {
                        assert(filter_outcome(fs@[i as int], *fixture, false));
                        return false;
                    }
                    i = i + 1;
                }
                true
            },
            Filter::Or(fs) => {
                let mut i: usize = 0;
                while i < fs.len()
                    invariant
                        i <= fs@.len(),
                        *self == Filter::<P>::Or(*fs),
                        forall|j: int| 0 <= j < fs@.len() ==> filter_callable(#[trigger] fs@[j], *fixture),
                        forall|j: int| 0 <= j < i ==> filter_outcome(#[trigger] fs@[j], *fixture, false),
                    decreases fs.len() - i,
                {
                    proof {
                        assert(decreases_to!(*self => (*self)->Or_0));
                        assert(decreases_to!(*fs => fs@));
                        assert(decreases_to!(fs@ => fs@[i as int]));
                    }
                    let b = fs[i].eval(fixture);
                    if b {
                        assert(filter_outcome(fs@[i as int], *fixture, true));
                        return true;
                    }
                    i = i + 1;
                }
                false
            },
            Filter::Predicate(p) => p(fixture),
        }
    }
}

/// A selection where the list of fixtures is defined by a filter (or a combination of filters) and
/// evaluated dynamically
pub struct FilteredSelection<P> {
    pub name: String,
    pub filter: Filter<P>,
    pub resolved_fixtures: Vec<FixtureRef>,
}

impl<P> FilteredSelection<P> {
    /// A filtered selection that has not been resolved yet.
    pub fn new(name: &str, filter: Filter<P>) -> (r: FilteredSelection<P>)
        ensures
            r.name@ == name@,
            r.filter == filter,
            r.resolved_fixtures@.len() == 0,
    {
        FilteredSelection { name: name.to_owned(), filter, resolved_fixtures: Vec::new() }
    }
}

impl<P: Fn(&Fixture) -> bool> Selection for FilteredSelection<P> {
    open spec fn lists_fixtures(&self) -> bool {
        true
    }

    /// The filter accepts every fixture as input.
    open spec fn updatable(&self) -> bool {
        forall|f: Fixture| filter_callable(self.filter, f)
    }

    fn name(&self) -> (r: &str)
        ensures
            r@ == self.name@,
    {
        self.name.as_str()
    }

    fn can_list_fixtures(&self) -> (r: bool) {
        true
    }

    fn can_update(&self) -> (r: bool) {
        true
    }

    fn fixtures(&self) -> (r: &[FixtureRef])
        ensures
            r@ == self.resolved_fixtures@,
    {
        self.resolved_fixtures.as_slice()
    }

    /// The show's fixtures that pass the filter, each once, by increasing UUID.
    fn update(&mut self, show: &Show)
        ensures
            final(self).name == old(self).name,
            final(self).filter == old(self).filter,
            final(self).resolved_fixtures@.no_duplicates(),
            forall|i: int, j: int| 0 <= i < j < final(self).resolved_fixtures@.len() ==>
                final(self).resolved_fixtures@[i] < final(self).resolved_fixtures@[j],
            forall|k: u128| #[trigger] final(self).resolved_fixtures@.contains(k) ==>
                show.fixtures@.contains_key(k) && filter_outcome(old(self).filter, show.fixtures@[k], true),
            forall|k: u128| #[trigger] show.fixtures@.contains_key(k) && !final(self).resolved_fixtures@.contains(k) ==>
                filter_outcome(old(self).filter, show.fixtures@[k], false),
    {
        let keys = fixture_uuids(&show.fixtures);
        let mut resolved: Vec<FixtureRef> = Vec::new();
        let mut j: usize = 0;
        while j < keys.len()
            invariant
                j <= keys@.len(),
                keys@.to_set() == show.fixtures@.dom(),
                keys@.no_duplicates(),
                forall|a: int, b: int| 0 <= a < b < keys@.len() ==> keys@[a] < keys@[b],
                forall|f: Fixture| filter_callable(self.filter, f),
                resolved@.no_duplicates(),
                forall|a: int, b: int| 0 <= a < b < resolved@.len() ==> resolved@[a] < resolved@[b],
                forall|k: u128| #[trigger] resolved@.contains(k) ==>
                    keys@.subrange(0, j as int).contains(k) && filter_outcome(self.filter, show.fixtures@[k], true),
                forall|t: int| 0 <= t < j && !resolved@.contains(#[trigger] keys@[t]) ==>
                    filter_outcome(self.filter, show.fixtures@[keys@[t]], false),
            decreases keys.len() - j,
        {
            let k = keys[j];
            proof {
                assert(keys@.to_set().contains(k));
            }
            let fixture = show.fixtures.get(&k).unwrap();
            let ghost old_resolved = resolved@;
            let passes = self.filter.eval(fixture);
            assert(*fixture == show.fixtures@[k]);
            if passes {
                proof {
                    if resolved@.len() > 0 {
                        let last = resolved@[resolved@.len() - 1];
                        assert(resolved@.contains(last));
                        let t = choose|t: int| 0 <= t < j && keys@.subrange(0, j as int)[t] == last;
                        assert(keys@[t] == last);
                    }
                    assert(!resolved@.contains(k)) by {
                        if resolved@.contains(k) {
                            let t = choose|t: int| 0 <= t < j && keys@.subrange(0, j as int)[t] == k;
                            assert(keys@[t] == keys@[j as int]);
                        }
                    }
                }
                resolved.push(k);
            }
            proof {
                assert forall|t: int| 0 <= t < j + 1 && !resolved@.contains(#[trigger] keys@[t]) implies
                    filter_outcome(self.filter, show.fixtures@[keys@[t]], false) by {
                    if t < j {
                        if old_resolved.contains(keys@[t]) {
                            let u = choose|u: int| 0 <= u < old_resolved.len() && old_resolved[u] == keys@[t];
                            assert(resolved@[u] == keys@[t]);
                        }
                    } else {
                        if passes {
                            assert(resolved@[resolved@.len() - 1] == k);
                        }
                    }
                }
                assert forall|k2: u128| #[trigger] resolved@.contains(k2) implies
                    keys@.subrange(0, j + 1).contains(k2) && filter_outcome(self.filter, show.fixtures@[k2], true) by {
                    if k2 != k {
                        assert(old_resolved.contains(k2));
                        let t = choose|t: int| 0 <= t < j && keys@.subrange(0, j as int)[t] == k2;
                        assert(keys@.subrange(0, j + 1)[t] == k2);
                    } else {
                        assert(keys@.subrange(0, j + 1)[j as int] == k2);
                    }
                }
            }
            j = j + 1;
        }
        proof {
            assert forall|k: u128| #[trigger] show.fixtures@.contains_key(k) && !resolved@.contains(k) implies
                filter_outcome(self.filter, show.fixtures@[k], false) by {
                assert(keys@.to_set().contains(k));
                let t = choose|t: int| 0 <= t < keys@.len() && keys@[t] == k;
                assert(!resolved@.contains(keys@[t]));
            }
        }
        self.resolved_fixtures = resolved;
    }
}

/// A selection which is a combination of one or more other selections, by index into the
/// selections that the application keeps.
pub struct UnionSelection {
    pub name: String,
    pub selections: Vec<usize>,
    pub resolved_fixtures: Vec<FixtureRef>,
}

impl UnionSelection {
    /// An empty union.
    pub fn new(name: &str) -> (r: UnionSelection)
        ensures
            r.name@ == name@,
            r.selections@.len() == 0,
            r.resolved_fixtures@.len() == 0,
    {
        UnionSelection { name: name.to_owned(), selections: Vec::new(), resolved_fixtures: Vec::new() }
    }

    /// Add a selection to the union.
    pub fn add_selection(&mut self, selection: usize)
        ensures
            final(self).selections@ == old(self).selections@.push(selection),
            final(self).name == old(self).name,
            final(self).resolved_fixtures@ == old(self).resolved_fixtures@,
    {
        self.selections.push(selection);
    }
}

impl Selection for UnionSelection {
    /// A union does not resolve its fixtures.
    open spec fn lists_fixtures(&self) -> bool {
        false
    }

    open spec fn updatable(&self) -> bool {
        false
    }

    fn name(&self) -> (r: &str)
        ensures
            r@ == self.name@,
    {
        self.name.as_str()
    }

    fn can_list_fixtures(&self) -> (r: bool) {
        false
    }

    fn can_update(&self) -> (r: bool) {
        false
    }

    fn fixtures(&self) -> (r: &[FixtureRef]) {
        self.resolved_fixtures.as_slice()
    }

    fn update(&mut self, show: &Show) {
    }
}

/// Used for debugging: this selection has a name, but its fixtures cannot be listed
#[derive(Debug)]
pub struct DummySelection {}

impl Selection for DummySelection {
    /// Listing its fixtures is an error.
    open spec fn lists_fixtures(&self) -> bool {
        false
    }

    open spec fn updatable(&self) -> bool {
        true
    }

    fn name(&self) -> (r: &str)
        ensures
            r@ == "Dummy Selection"@,
    {
        "Dummy Selection"
    }

    fn can_list_fixtures(&self) -> (r: bool) {
        false
    }

    fn can_update(&self) -> (r: bool) {
        true
    }

    fn fixtures(&self) -> (r: &[FixtureRef]) {
        &[]
    }

    fn update(&mut self, show: &Show) {
    }
}

/// A selection built for easy addition/removal of fixtures
#[derive(Debug)]
pub struct MutableStrictSelection {
    pub name: String,
    pub fixtures: BTreeSet<FixtureRef>,
}

impl Selection for MutableStrictSelection {
    /// Listing the fixtures of a set is not supported.
    open spec fn lists_fixtures(&self) -> bool {
        false
    }

    open spec fn updatable(&self) -> bool {
        true
    }

    fn name(&self) -> (r: &str)
        ensures
            r@ == self.name@,
    {
        self.name.as_str()
    }

    fn can_list_fixtures(&self) -> (r: bool) {
        false
    }

    fn can_update(&self) -> (r: bool) {
        true
    }

    fn fixtures(&self) -> (r: &[FixtureRef]) {
        &[]
    }

    fn update(&mut self, show: &Show)
        ensures
            final(self).name == old(self).name,
            final(self).fixtures@ == old(self).fixtures@,
    {
    }
}

} // verus!
