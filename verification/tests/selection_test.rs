use joylight_backend::fixtures::common_fixtures::{dimmer, rgb_dimmer};
use joylight_backend::fixtures::{
    DummySelection, Filter, FilteredSelection, Fixture, MutableStrictSelection, Selection, StrictSelection, UnionSelection,
};
use joylight_backend::show::Show;

type Predicate = Box<dyn Fn(&Fixture) -> bool>;

fn named(name: &'static str) -> Filter<Predicate> {
    Filter::Predicate(Box::new(move |f: &Fixture| f.name == name))
}

fn has_colour() -> Filter<Predicate> {
    Filter::Predicate(Box::new(|f: &Fixture| f.get_parameter_by_name("color_rgb").is_some()))
}

#[test]
fn filters_combine() {
    let a = Fixture::new("A", &dimmer());
    let b = Fixture::new("B", &rgb_dimmer());
    assert!(Filter::<Predicate>::All.eval(&a));
    assert!(named("A").eval(&a));
    assert!(!named("A").eval(&b));
    assert!(Filter::Not(Box::new(named("A"))).eval(&b));
    assert!(Filter::And(vec![named("B"), has_colour()]).eval(&b));
    assert!(!Filter::And(vec![named("A"), has_colour()]).eval(&a));
    assert!(Filter::<Predicate>::And(vec![]).eval(&a));
    assert!(Filter::Or(vec![named("A"), has_colour()]).eval(&b));
    assert!(!Filter::Or(vec![named("C"), has_colour()]).eval(&a));
    assert!(!Filter::<Predicate>::Or(vec![]).eval(&a));
}

#[test]
fn filtered_selection_resolves_against_the_show() {
    let mut show = Show::default();
    let a = Fixture::new("A", &dimmer());
    let b = Fixture::new("B", &rgb_dimmer());
    let c = Fixture::new("C", &rgb_dimmer());
    let (ida, idb, idc) = (a.uuid, b.uuid, c.uuid);
    show.add_fixture(a);
    show.add_fixture(b);
    show.add_fixture(c);

    let mut coloured = FilteredSelection::new("Colour", has_colour());
    assert_eq!(coloured.name(), "Colour");
    assert!(coloured.fixtures().is_empty());
    coloured.update(&show);
    let mut resolved = coloured.fixtures().to_vec();
    resolved.sort();
    let mut expected = vec![idb, idc];
    expected.sort();
    assert_eq!(resolved, expected);
    assert!(!coloured.fixtures().contains(&ida));

    show.remove_fixture(idb);
    coloured.update(&show);
    assert_eq!(coloured.fixtures(), &[idc]);
}

#[test]
fn fixed_selections() {
    let mut strict = StrictSelection { name: "Front".to_string(), fixtures: vec![3, 1] };
    assert_eq!(strict.name(), "Front");
    strict.update(&Show::default());
    assert_eq!(strict.fixtures(), &[3, 1]);

    let dummy = DummySelection {};
    assert_eq!(dummy.name(), "Dummy Selection");

    let mutable = MutableStrictSelection { name: "Mutable".to_string(), fixtures: [1u128, 2].into_iter().collect() };
    assert_eq!(mutable.name(), "Mutable");

    let mut union = UnionSelection::new("All");
    union.add_selection(0);
    union.add_selection(2);
    assert_eq!(union.name(), "All");
    assert_eq!(union.selections, vec![0, 2]);
}

#[test]
fn selections_tell_what_they_support() {
    let strict = StrictSelection { name: "Front".to_string(), fixtures: vec![] };
    assert!(strict.can_list_fixtures() && strict.can_update());
    let filtered = FilteredSelection::new("Colour", has_colour());
    assert!(filtered.can_list_fixtures() && filtered.can_update());
    let dummy = DummySelection {};
    assert!(!dummy.can_list_fixtures() && dummy.can_update());
    let mutable = MutableStrictSelection { name: "Mutable".to_string(), fixtures: Default::default() };
    assert!(!mutable.can_list_fixtures() && mutable.can_update());
    let union = UnionSelection::new("All");
    assert!(!union.can_list_fixtures() && !union.can_update());
}
