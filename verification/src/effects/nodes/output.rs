//! Output nodes: they write the numbers that reach them into a named parameter of each
//! fixture of a selection.

use vstd::prelude::*;
use std::collections::BTreeMap;
use crate::fixtures::fixture::{Fixture, FixtureRef, only_value_changed, same_frame};
use crate::parameters::parameter_type::ParameterType;
use crate::parameters::parameter_value::{ParameterError, ParameterValue, ValueModel, check_result};

verus! {

broadcast use vstd::std_specs::btree::group_btree_axioms;

/// Why an output could not be written to a fixture.
#[derive(Clone, Debug, PartialEq, Eq)]
pub enum OutputError {
    /// A selected fixture is not in the show.
    UnknownFixture,
    /// A selected fixture has no parameter of the output's name.
    ParameterNotFound,
    /// The numbers do not fit the parameter.
    Parameter(ParameterError),
}

/// The index of the first of the parameter types `types[from..n]` whose alias is `name`.
pub open spec fn first_named(types: Seq<ParameterType>, name: Seq<char>, from: int, n: int) -> Option<int>
    decreases n - from,
{
    if from >= n {
        None
    } else if types[from].alias@ == name {
        Some(from)
    } else {
        first_named(types, name, from + 1, n)
    }
}

/// The number of parameters of `f` that can be looked up by name: those with both a type and a value.
pub open spec fn named_count(f: Fixture) -> int {
    if f.template.parameters@.len() < f.params().len() {
        f.template.parameters@.len() as int
    } else {
        f.params().len() as int
    }
}

/// Where the numbers `v` go in fixture `k` of `m`: the index of its parameter named `name`, or
/// why they cannot go there.
pub open spec fn output_target(m: Map<u128, Fixture>, k: u128, name: Seq<char>, v: Seq<u64>) -> Result<int, OutputError> {
    if !m.contains_key(k) {
        Err(OutputError::UnknownFixture)
    } else {
        let f = m[k];
        match first_named(f.template.parameters@, name, 0, named_count(f)) {
            None => Err(OutputError::ParameterNotFound),
            Some(i) => match check_result(f.template.parameters@[i].description, ValueModel::Number(v)) {
                Ok(_) => Ok(i),
                Err(e) => Err(OutputError::Parameter(e)),
            },
        }
    }
}

/// The number of selected fixtures written before the output stops: all of them, or those
/// before the first that cannot take the numbers.
pub open spec fn output_stop(m: Map<u128, Fixture>, selected: Seq<u128>, name: Seq<char>, v: Seq<u64>, n: int) -> int
    decreases n,
{
    if n <= 0 {
        0
    } else {
        let s = output_stop(m, selected, name, v, n - 1);
        if s < n - 1 {
            s
        } else if output_target(m, selected[n - 1], name, v) is Ok {
            n
        } else {
            n - 1
        }
    }
}

/// `q` is the fixture `p` with the parameter at `i` set to the numbers `v`.
pub open spec fn value_written(p: Fixture, q: Fixture, i: int, v: Seq<u64>) -> bool {
    &&& same_frame(p, q)
    &&& 0 <= i < p.params().len()
    &&& only_value_changed(p.params()[i], q.params()[i], ValueModel::Number(v))
    &&& forall|j: int| 0 <= j < p.params().len() && j != i ==> #[trigger] q.params()[j] == p.params()[j]
}

/// `new` is `old` after the numbers `v` were written to the parameter named `name` of the
/// first `n` selected fixtures.
pub open spec fn outputs_written(old: Map<u128, Fixture>, new: Map<u128, Fixture>, selected: Seq<u128>, name: Seq<char>, v: Seq<u64>, n: int) -> bool {
    &&& new.dom() == old.dom()
    &&& forall|k: u128| #[trigger] old.contains_key(k) ==> if selected.take(n).contains(k) {
        output_target(old, k, name, v) matches Ok(i) && value_written(old[k], new[k], i, v)
    } else {
        new[k] == old[k]
    }
}

proof fn lemma_first_named_found(types: Seq<ParameterType>, name: Seq<char>, from: int, n: int, i: int)
    requires
        0 <= from <= i < n,
        types[i].alias@ == name,
        forall|j: int| from <= j < i ==> #[trigger] types[j].alias@ != name,
    ensures
        first_named(types, name, from, n) == Some(i),
    decreases i - from,
{
    if from < i {
        lemma_first_named_found(types, name, from + 1, n, i);
    }
}

proof fn lemma_first_named_absent(types: Seq<ParameterType>, name: Seq<char>, from: int, n: int)
    requires
        0 <= from,
        forall|j: int| from <= j < n ==> #[trigger] types[j].alias@ != name,
    ensures
        first_named(types, name, from, n) is None,
    decreases n - from,
{
    if from < n {
        lemma_first_named_absent(types, name, from + 1, n);
    }
}

proof fn lemma_output_stop_bounds(m: Map<u128, Fixture>, selected: Seq<u128>, name: Seq<char>, v: Seq<u64>, n: int)
    requires
        0 <= n,
    ensures
        0 <= output_stop(m, selected, name, v, n) <= n,
        output_stop(m, selected, name, v, n) == n ==>
            forall|t: int| 0 <= t < n ==> #[trigger] output_target(m, selected[t], name, v) is Ok,
    decreases n,
{
    if n > 0 {
        lemma_output_stop_bounds(m, selected, name, v, n - 1);
    }
}

proof fn lemma_output_stop_stays(m: Map<u128, Fixture>, selected: Seq<u128>, name: Seq<char>, v: Seq<u64>, j: int, n: int)
    requires
        0 <= j < n,
        output_stop(m, selected, name, v, j + 1) == j,
    ensures
        output_stop(m, selected, name, v, n) == j,
    decreases n - j,
{
    if n > j + 1 {
        lemma_output_stop_stays(m, selected, name, v, j, n - 1);
    }
}

/// Write the numbers `values` into the parameter named `name` of each selected fixture, in
/// order, stopping at the first fixture that is unknown, has no such parameter, or whose
/// parameter does not take that many numbers.
pub fn output_to_fixtures(
    fixtures: &mut BTreeMap<u128, Fixture>,
    selected: &[FixtureRef],
    name: &str,
    values: &Vec<u64>,
) -> (r: Result<(), OutputError>)
    ensures
        ({
            let stop = output_stop(old(fixtures)@, selected@, name@, values@, selected@.len() as int);
            &&& outputs_written(old(fixtures)@, final(fixtures)@, selected@, name@, values@, stop)
            &&& stop == selected@.len() <==> r is Ok
            &&& stop < selected@.len() ==> r == match output_target(old(fixtures)@, selected@[stop], name@, values@) {
                Err(e) => Err::<(), OutputError>(e),
                Ok(_) => Ok(()),
            }
        }),
{
    let ghost start = fixtures@;
    let mut j: usize = 0;
    while j < selected.len()
        invariant
            j <= selected@.len(),
            start == old(fixtures)@,
            output_stop(start, selected@, name@, values@, j as int) == j,
            outputs_written(start, fixtures@, selected@, name@, values@, j as int),
        decreases selected.len() - j,
    {
        let k = selected[j];
        let ghost before = fixtures@;
        proof {
            assert(selected@.take(j + 1) =~= selected@.take(j as int).push(k));
        }
        match fixtures.remove(&k) {
            None => {
                assert(fixtures@ =~= before);
                proof {
                    assert(!start.contains_key(k));
                }
                proof {
                    lemma_output_stop_stays(start, selected@, name@, values@, j as int, selected@.len() as int);
                }
                return Err(OutputError::UnknownFixture);
            },
            Some(mut f) => {
                let ghost f0 = f;
                proof {
                    assert(start.contains_key(k));
                    if selected@.take(j as int).contains(k) {
                        assert(same_frame(start[k], f0));
                    } else {
                        assert(f0 == start[k]);
                    }
                    assert(same_frame(start[k], f0));
                }
                match f.get_parameter_by_name(name) {
                    None => {
                        proof {
                            lemma_first_named_absent(f0.template.parameters@, name@, 0, named_count(f0));
                        }
                        fixtures.insert(k, f);
                        assert(fixtures@ =~= before);
                        proof {
                            lemma_output_stop_stays(start, selected@, name@, values@, j as int, selected@.len() as int);
                        }
                        return Err(OutputError::ParameterNotFound);
                    },
                    Some(index) => {
                        proof {
                            lemma_first_named_found(f0.template.parameters@, name@, 0, named_count(f0), index as int);
                        }
                        let result = f.set_parameter(index, ParameterValue::Number(values.clone()));
                        match result {
                            Err(e) => {
                                fixtures.insert(k, f);
                                assert(fixtures@ =~= before);
                                proof {
                                    lemma_output_stop_stays(start, selected@, name@, values@, j as int, selected@.len() as int);
                                }
                                return Err(OutputError::Parameter(e));
                            },
                            Ok(()) => {
                                fixtures.insert(k, f);
                                proof {
                                    assert(output_target(start, k, name@, values@) == Ok::<int, OutputError>(index as int));
                                    assert(fixtures@.dom() =~= start.dom());
                                    assert forall|k2: u128| #[trigger] start.contains_key(k2) implies if selected@.take(j + 1).contains(k2) {
                                        output_target(start, k2, name@, values@) matches Ok(i) && value_written(start[k2], fixtures@[k2], i, values@)
                                    } else {
                                        fixtures@[k2] == start[k2]
                                    } by {
                                        if k2 != k {
                                            assert(fixtures@[k2] == before[k2]);
                                            if selected@.take(j + 1).contains(k2) {
                                                let t = choose|t: int| 0 <= t < j + 1 && #[trigger] selected@.take(j + 1)[t] == k2;
                                                assert(selected@.take(j as int)[t] == k2);
                                            }
                                        } else {
                                            assert(selected@.take(j + 1)[j as int] == k);
                                            if selected@.take(j as int).contains(k) {
                                                assert(value_written(start[k], f0, index as int, values@));
                                            }
                                        }
                                    }
                                }
                            },
                        }
                    },
                }
            },
        }
        j = j + 1;
    }
    proof {
        lemma_output_stop_bounds(start, selected@, name@, values@, selected@.len() as int);
    }
    Ok(())
}

} // verus!
