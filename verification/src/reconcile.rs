//! Carrying a selection over to a fresh scan, by name.

use vstd::prelude::*;

use crate::model::{distinct_names, Feature, FeatureView, Program, ProgramView};
use crate::sequences::{lemma_deep_view_push, lemma_deep_view_take};

verus! {

/// The index of the first text in `names` that equals `wanted`.
pub open spec fn position(names: Seq<Seq<char>>, wanted: Seq<char>) -> Option<int>
    decreases names.len(),
{
    if names.len() == 0 {
        None
    } else {
        match position(names.drop_last(), wanted) {
            Some(i) => Some(i),
            None => if names.last() == wanted {
                Some(names.len() - 1)
            } else {
                None
            },
        }
    }
}

/// `position` finds an occurrence before which there is none, or reports
/// that there is none at all.
pub proof fn lemma_position(names: Seq<Seq<char>>, wanted: Seq<char>)
    ensures
        match position(names, wanted) {
            Some(i) => 0 <= i < names.len() && names[i] == wanted && forall|k: int|
                0 <= k < i ==> names[k] != wanted,
            None => forall|k: int| 0 <= k < names.len() ==> names[k] != wanted,
        },
    decreases names.len(),
{
    if names.len() > 0 {
        let front = names.drop_last();
        lemma_position(front, wanted);
        assert forall|k: int| 0 <= k < front.len() implies front[k] == names[k] by {}
        match position(front, wanted) {
            Some(i) => {
                assert forall|k: int| 0 <= k < i implies names[k] != wanted by {
                    assert(front[k] != wanted);
                }
            },
            None => {
                assert forall|k: int| 0 <= k < names.len() - 1 implies names[k] != wanted by {
                    assert(front[k] != wanted);
                }
            },
        }
    }
}

/// An occurrence before which there is none is the position.
pub proof fn lemma_position_is(names: Seq<Seq<char>>, wanted: Seq<char>, at: int)
    requires
        0 <= at < names.len(),
        names[at] == wanted,
        forall|k: int| 0 <= k < at ==> names[k] != wanted,
    ensures
        position(names, wanted) == Some(at),
{
    lemma_position(names, wanted);
}

/// The names of the programs, in order.
pub open spec fn program_names(programs: Seq<ProgramView>) -> Seq<Seq<char>> {
    programs.map_values(|p: ProgramView| p.name)
}

/// The names of the features, in order.
pub open spec fn feature_names(features: Seq<FeatureView>) -> Seq<Seq<char>> {
    features.map_values(|f: FeatureView| f.name)
}

/// The flag that the feature named `feature` of the program named `program`
/// takes over from `old`: the flag of the first feature of that name in the
/// first program of that name, and unset where either is missing or the
/// feature has no flag.
pub open spec fn carried(old: Seq<ProgramView>, program: Seq<char>, feature: Seq<char>) -> bool {
    match position(program_names(old), program) {
        None => false,
        Some(j) => match position(feature_names(old[j].features), feature) {
            None => false,
            Some(i) => i < old[j].selected.len() && old[j].selected[i],
        },
    }
}

/// A freshly scanned program with the flags it takes over from `old`.
pub open spec fn reconciled_program(old: Seq<ProgramView>, fresh: ProgramView) -> ProgramView {
    ProgramView {
        selected: Seq::new(
            fresh.features.len(),
            |i: int| carried(old, fresh.name, fresh.features[i].name),
        ),
        ..fresh
    }
}

/// The fresh scan with the selection of `old` carried over by name.
pub open spec fn reconciled(old: Seq<ProgramView>, fresh: Seq<ProgramView>) -> Seq<ProgramView> {
    fresh.map_values(|p: ProgramView| reconciled_program(old, p))
}

/// Flags follow names, not places: where the first old program of the fresh
/// program's name is `old[j]`, and its first feature of the name of the
/// fresh program's feature `i` is feature `m`, the fresh feature takes the
/// flag of that old feature, wherever the two stand in their lists.
pub proof fn lemma_flag_follows_name(
    old: Seq<ProgramView>,
    fresh: ProgramView,
    i: int,
    j: int,
    m: int,
)
    requires
        0 <= i < fresh.features.len(),
        0 <= j < old.len(),
        old[j].name == fresh.name,
        forall|k: int| 0 <= k < j ==> old[k].name != fresh.name,
        0 <= m < old[j].features.len(),
        old[j].features[m].name == fresh.features[i].name,
        forall|k: int| 0 <= k < m ==> old[j].features[k].name != fresh.features[i].name,
    ensures
        reconciled_program(old, fresh).selected[i] == old[j].is_selected(m),
{
    lemma_position_is(program_names(old), fresh.name, j);
    lemma_position_is(feature_names(old[j].features), fresh.features[i].name, m);
}

/// A feature or a program that is new starts unselected: the fresh feature
/// `i` is unset where no old program has the fresh program's name, and where
/// the first old program of that name has no feature of the feature's name.
pub proof fn lemma_new_starts_unselected(old: Seq<ProgramView>, fresh: ProgramView, i: int)
    requires
        0 <= i < fresh.features.len(),
        (forall|k: int| 0 <= k < old.len() ==> old[k].name != fresh.name) || (exists|j: int|
            0 <= j < old.len() && old[j].name == fresh.name && (forall|k: int|
                0 <= k < j ==> old[k].name != fresh.name) && (forall|k: int|
                0 <= k < old[j].features.len() ==> #[trigger] old[j].features[k].name
                    != fresh.features[i].name)),
    ensures
        !reconciled_program(old, fresh).selected[i],
{
    lemma_position(program_names(old), fresh.name);
    if forall|k: int| 0 <= k < old.len() ==> old[k].name != fresh.name {
        match position(program_names(old), fresh.name) {
            Some(p) => {
                assert(program_names(old)[p] == old[p].name);
            },
            None => {},
        }
    } else {
        let j = choose|j: int|
            0 <= j < old.len() && old[j].name == fresh.name && (forall|k: int|
                0 <= k < j ==> old[k].name != fresh.name) && (forall|k: int|
                0 <= k < old[j].features.len() ==> #[trigger] old[j].features[k].name
                    != fresh.features[i].name);
        lemma_position_is(program_names(old), fresh.name, j);
        let names = feature_names(old[j].features);
        lemma_position(names, fresh.features[i].name);
        match position(names, fresh.features[i].name) {
            Some(p) => {
                assert(names[p] == old[j].features[p].name);
            },
            None => {},
        }
    }
}

/// A scan that finds what was there changes nothing: programs of different
/// names, each with one flag per feature and features of different names,
/// come out of a merge with themselves as they went in.
pub proof fn lemma_same_scan_keeps_selection(programs: Seq<ProgramView>)
    requires
        distinct_names(programs),
        forall|k: int| 0 <= k < programs.len() ==> (#[trigger] programs[k]).wf(),
        forall|k: int| 0 <= k < programs.len() ==> (#[trigger] programs[k]).distinct_features(),
    ensures
        reconciled(programs, programs) == programs,
{
    assert forall|k: int| 0 <= k < programs.len() implies reconciled(programs, programs)[k]
        == programs[k] by {
        let program = programs[k];
        assert(program.wf());
        assert(program.distinct_features());
        assert forall|i: int| 0 <= i < program.features.len() implies carried(
            programs,
            program.name,
            program.features[i].name,
        ) == program.selected[i] by {
            lemma_flag_follows_name(programs, program, i, k, i);
        }
        assert(reconciled_program(programs, program).selected =~= program.selected);
    }
    assert(reconciled(programs, programs) =~= programs);
}

/// Finds the first program called `name`.
pub fn find_program(programs: &Vec<Program>, name: &String) -> (found: Option<usize>)
    ensures
        match found {
            Some(j) => j < programs.len() && position(program_names(programs.deep_view()), name@)
                == Some(j as int),
            None => position(program_names(programs.deep_view()), name@) == None::<int>,
        },
{
    let ghost names = program_names(programs.deep_view());
    let mut j: usize = 0;
    while j < programs.len()
        invariant
            j <= programs.len(),
            names == program_names(programs.deep_view()),
            position(names.take(j as int), name@) == None::<int>,
        decreases programs.len() - j,
    {
        proof {
            assert(names.take(j + 1).drop_last() =~= names.take(j as int));
            assert(names.take(j + 1).last() == programs@[j as int].name@);
        }
        if programs[j].name == *name {
            proof {
                lemma_found_here(names, name@, j as int);
            }
            return Some(j);
        }
        j += 1;
    }
    proof {
        assert(names.take(j as int) =~= names);
    }
    None
}

/// Finds the first feature called `name`.
pub fn find_feature(features: &Vec<Feature>, name: &String) -> (found: Option<usize>)
    ensures
        match found {
            Some(i) => i < features.len() && position(feature_names(features.deep_view()), name@)
                == Some(i as int),
            None => position(feature_names(features.deep_view()), name@) == None::<int>,
        },
{
    let ghost names = feature_names(features.deep_view());
    let mut i: usize = 0;
    while i < features.len()
        invariant
            i <= features.len(),
            names == feature_names(features.deep_view()),
            position(names.take(i as int), name@) == None::<int>,
        decreases features.len() - i,
    {
        proof {
            assert(names.take(i + 1).drop_last() =~= names.take(i as int));
            assert(names.take(i + 1).last() == features@[i as int].name@);
        }
        if features[i].name == *name {
            proof {
                lemma_found_here(names, name@, i as int);
            }
            return Some(i);
        }
        i += 1;
    }
    proof {
        assert(names.take(i as int) =~= names);
    }
    None
}

/// An occurrence with none before it is the position.
pub proof fn lemma_found_here(names: Seq<Seq<char>>, wanted: Seq<char>, i: int)
    requires
        0 <= i < names.len(),
        names[i] == wanted,
        position(names.take(i), wanted) == None::<int>,
    ensures
        position(names, wanted) == Some(i),
    decreases names.len(),
{
    if i == names.len() - 1 {
        assert(names.drop_last() =~= names.take(i));
    } else {
        assert(names.drop_last().take(i) =~= names.take(i));
        lemma_found_here(names.drop_last(), wanted, i);
    }
}

/// Merges a fresh scan with the selection held before it. Each fresh program
/// gets one flag per feature: the flag of the feature of the same name in the
/// old program of the same name, and unset where there is none. Programs that
/// only `old` has are gone.
pub fn reconcile(old: &Vec<Program>, fresh: Vec<Program>) -> (merged: Vec<Program>)
    ensures
        merged.deep_view() == reconciled(old.deep_view(), fresh.deep_view()),
        forall|k: int| 0 <= k < merged.len() ==> (#[trigger] merged.deep_view()[k]).wf(),
{
    let ghost all = fresh;
    let mut merged: Vec<Program> = Vec::new();
    assert(merged.deep_view() =~= reconciled(old.deep_view(), all.deep_view().take(0)));
    for program in it: fresh
        invariant
            it.seq() == all@,
            merged.deep_view() == reconciled(old.deep_view(), all.deep_view().take(it.index() as int)),
    {
        let ghost k = it.index() as int;
        let found = find_program(old, &program.name);
        let mut selected: Vec<bool> = Vec::new();
        let mut i: usize = 0;
        while i < program.features.len()
            invariant
                i <= program.features.len(),
                selected@.len() == i,
                forall|m: int| 0 <= m < i ==> selected@[m] == carried(
                    old.deep_view(),
                    program@.name,
                    program@.features[m].name,
                ),
                match found {
                    Some(j) => position(program_names(old.deep_view()), program@.name) == Some(j as int)
                        && j < old.len(),
                    None => position(program_names(old.deep_view()), program@.name) == None::<int>,
                },
            decreases program.features.len() - i,
        {
            let flag = match found {
                None => false,
                Some(j) => {
                    match find_feature(&old[j].features, &program.features[i].name) {
                        None => false,
                        Some(at) => at < old[j].selected.len() && old[j].selected[at],
                    }
                },
            };
            selected.push(flag);
            i += 1;
        }
        proof {
            lemma_position(program_names(old.deep_view()), program@.name);
        }
        let ghost before = merged;
        let updated = Program {
            name: program.name,
            features: program.features,
            selected,
            path: program.path,
        };
        proof {
            assert(updated@.selected =~= reconciled_program(old.deep_view(), program@).selected);
            assert(updated@ == reconciled_program(old.deep_view(), program@));
        }
        merged.push(updated);
        proof {
            lemma_deep_view_push(before, merged, updated);
            lemma_deep_view_take(all, k);
            assert(reconciled(old.deep_view(), all.deep_view().take(k + 1)) =~= reconciled(
                old.deep_view(),
                all.deep_view().take(k),
            ).push(reconciled_program(old.deep_view(), program@)));
        }
    }
    proof {
        assert(all.deep_view().take(all@.len() as int) =~= all.deep_view());
    }
    merged
}

} // verus!
