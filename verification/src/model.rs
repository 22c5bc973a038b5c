//! Projects, their features and saved selections.

use vstd::prelude::*;

use crate::sequences::{lemma_deep_view_push, lemma_deep_view_take};
use crate::text::copy_texts;

verus! {

/// A named optional build configuration of one project. The names in
/// `sub_features` are what the feature enables in turn; they are shown to the
/// operator and never expanded.
#[derive(Debug, PartialEq, Eq)]
pub struct Feature {
    pub name: String,
    pub sub_features: Vec<String>,
}

/// What a [`Feature`] holds, as plain sequences.
pub struct FeatureView {
    pub name: Seq<char>,
    pub sub_features: Seq<Seq<char>>,
}

impl View for Feature {
    type V = FeatureView;

    open spec fn view(&self) -> FeatureView {
        FeatureView { name: self.name@, sub_features: self.sub_features.deep_view() }
    }
}

impl DeepView for Feature {
    type V = FeatureView;

    open spec fn deep_view(&self) -> FeatureView {
        self@
    }
}

impl Clone for Feature {
    fn clone(&self) -> (out: Feature)
        ensures
            out@ == self@,
    {
        Feature { name: self.name.clone(), sub_features: copy_texts(&self.sub_features) }
    }
}

/// Copies a list of features.
pub fn copy_features(features: &Vec<Feature>) -> (out: Vec<Feature>)
    ensures
        out.deep_view() == features.deep_view(),
{
    let mut out: Vec<Feature> = Vec::new();
    let mut i: usize = 0;
    assert(out.deep_view() =~= features.deep_view().take(0));
    while i < features.len()
        invariant
            i <= features.len(),
            out.deep_view() == features.deep_view().take(i as int),
        decreases features.len() - i,
    {
        let ghost before = out;
        out.push(features[i].clone());
        proof {
            lemma_deep_view_push(before, out, out@.last());
            lemma_deep_view_take(*features, i as int);
        }
        i += 1;
    }
    assert(features.deep_view().take(i as int) =~= features.deep_view());
    out
}

/// Copies a list of flags.
pub fn copy_flags(flags: &Vec<bool>) -> (out: Vec<bool>)
    ensures
        out@ == flags@,
{
    let mut out: Vec<bool> = Vec::new();
    let mut i: usize = 0;
    while i < flags.len()
        invariant
            i <= flags.len(),
            out@ == flags@.take(i as int),
        decreases flags.len() - i,
    {
        out.push(flags[i]);
        assert(out@ =~= flags@.take(i + 1));
        i += 1;
    }
    assert(flags@.take(i as int) =~= flags@);
    out
}

/// A buildable project: its features in discovery order, one selection flag
/// per feature, and the directory its build runs from.
#[derive(Debug, PartialEq, Eq)]
pub struct Program {
    pub name: String,
    pub features: Vec<Feature>,
    pub selected: Vec<bool>,
    pub path: String,
}

/// What a [`Program`] holds, as plain sequences.
pub struct ProgramView {
    pub name: Seq<char>,
    pub features: Seq<FeatureView>,
    pub selected: Seq<bool>,
    pub path: Seq<char>,
}

impl ProgramView {
    /// Each feature has its flag.
    pub open spec fn wf(self) -> bool {
        self.selected.len() == self.features.len()
    }

    /// Feature `i` exists, has a flag, and the flag is set.
    pub open spec fn is_selected(self, i: int) -> bool {
        0 <= i < self.features.len() && i < self.selected.len() && self.selected[i]
    }

    /// The names of the selected features among the first `n`, in feature order.
    pub open spec fn chosen_upto(self, n: nat) -> Seq<Seq<char>>
        decreases n,
    {
        if n == 0 {
            Seq::empty()
        } else {
            let rest = self.chosen_upto((n - 1) as nat);
            if self.is_selected(n - 1) {
                rest.push(self.features[n - 1].name)
            } else {
                rest
            }
        }
    }

    /// The names of all selected features, in feature order.
    pub open spec fn chosen(self) -> Seq<Seq<char>> {
        self.chosen_upto(self.features.len())
    }

    /// The same program with exactly one flag per feature: flags that were
    /// there stay, missing ones are unset, surplus ones are dropped.
    pub open spec fn repaired(self) -> ProgramView {
        ProgramView {
            selected: Seq::new(self.features.len(), |i: int| self.is_selected(i)),
            ..self
        }
    }

    /// The repaired program with the flag of feature `i` set to `on`.
    pub open spec fn with_flag(self, i: int, on: bool) -> ProgramView {
        ProgramView { selected: self.repaired().selected.update(i, on), ..self }
    }

    /// No two features have the same name.
    pub open spec fn distinct_features(self) -> bool {
        forall|i: int, j: int|
            0 <= i < j < self.features.len() ==> self.features[i].name != self.features[j].name
    }
}

impl View for Program {
    type V = ProgramView;

    open spec fn view(&self) -> ProgramView {
        ProgramView {
            name: self.name@,
            features: self.features.deep_view(),
            selected: self.selected@,
            path: self.path@,
        }
    }
}

impl DeepView for Program {
    type V = ProgramView;

    open spec fn deep_view(&self) -> ProgramView {
        self@
    }
}

impl Clone for Program {
    fn clone(&self) -> (out: Program)
        ensures
            out@ == self@,
    {
        Program {
            name: self.name.clone(),
            features: copy_features(&self.features),
            selected: copy_flags(&self.selected),
            path: self.path.clone(),
        }
    }
}

/// No two programs have the same name.
pub open spec fn distinct_names(programs: Seq<ProgramView>) -> bool {
    forall|i: int, j: int| 0 <= i < j < programs.len() ==> programs[i].name != programs[j].name
}

/// No feature among the first `n` is selected exactly when none is chosen.
pub proof fn lemma_chosen_upto_empty(p: ProgramView, n: nat)
    ensures
        p.chosen_upto(n).len() == 0 <==> forall|i: int| 0 <= i < n ==> !p.is_selected(i),
    decreases n,
{
    if n > 0 {
        lemma_chosen_upto_empty(p, (n - 1) as nat);
    }
}

/// What is chosen among the first `n` features are the names of those of
/// them that are selected, and no others.
pub proof fn lemma_chosen_upto_members(p: ProgramView, n: nat, name: Seq<char>)
    ensures
        p.chosen_upto(n).contains(name) <==> exists|i: int|
            0 <= i < n && p.is_selected(i) && p.features[i].name == name,
    decreases n,
{
    if n > 0 {
        let rest = p.chosen_upto((n - 1) as nat);
        lemma_chosen_upto_members(p, (n - 1) as nat, name);
        if p.is_selected(n - 1) {
            let all = rest.push(p.features[n - 1].name);
            assert(all.last() == p.features[n - 1].name);
            if all.contains(name) {
                let at = choose|k: int| 0 <= k < all.len() && all[k] == name;
                if at < rest.len() {
                    assert(rest[at] == name);
                    assert(rest.contains(name));
                }
            }
            if rest.contains(name) {
                let at = choose|k: int| 0 <= k < rest.len() && rest[k] == name;
                assert(all[at] == name);
            }
            if p.features[n - 1].name == name {
                assert(all[all.len() - 1] == name);
            }
        }
    }
}

/// A feature's name is chosen exactly when a selected feature has it.
pub proof fn lemma_chosen_members(p: ProgramView, name: Seq<char>)
    ensures
        p.chosen().contains(name) <==> exists|i: int|
            p.is_selected(i) && p.features[i].name == name,
{
    lemma_chosen_upto_members(p, p.features.len(), name);
}

/// A program whose flags are all unset has no chosen feature.
pub proof fn lemma_nothing_selected(p: ProgramView)
    requires
        forall|i: int| 0 <= i < p.selected.len() ==> !p.selected[i],
    ensures
        p.chosen() == Seq::<Seq<char>>::empty(),
{
    lemma_chosen_upto_empty(p, p.features.len());
    assert(p.chosen() =~= Seq::<Seq<char>>::empty());
}

/// Repairing keeps what is chosen.
pub proof fn lemma_repair_keeps_chosen(p: ProgramView, n: nat)
    requires
        n <= p.features.len(),
    ensures
        p.repaired().chosen_upto(n) == p.chosen_upto(n),
        p.repaired().wf(),
    decreases n,
{
    if n > 0 {
        lemma_repair_keeps_chosen(p, (n - 1) as nat);
    }
}

impl Program {
    /// A program with every feature unselected.
    pub fn new(name: String, features: Vec<Feature>, path: String) -> (program: Program)
        ensures
            program@.name == name@,
            program@.features == features.deep_view(),
            program@.path == path@,
            program@.selected == Seq::new(features@.len(), |i: int| false),
            program@.wf(),
    {
        let mut selected: Vec<bool> = Vec::new();
        let mut i: usize = 0;
        while i < features.len()
            invariant
                i <= features.len(),
                selected@ == Seq::new(i as nat, |k: int| false),
            decreases features.len() - i,
        {
            selected.push(false);
            assert(selected@ =~= Seq::new((i + 1) as nat, |k: int| false));
            i += 1;
        }
        Program { name, features, selected, path }
    }

    /// The names of the selected features, in feature order. A feature without
    /// a flag counts as unselected.
    pub fn selected_features(&self) -> (names: Vec<String>)
        ensures
            names.deep_view() == self@.chosen(),
    {
        let mut names: Vec<String> = Vec::new();
        let mut i: usize = 0;
        assert(names.deep_view() =~= self@.chosen_upto(0));
        while i < self.features.len()
            invariant
                i <= self.features.len(),
                names.deep_view() == self@.chosen_upto(i as nat),
            decreases self.features.len() - i,
        {
            if i < self.selected.len() && self.selected[i] {
                let ghost before = names;
                names.push(self.features[i].name.clone());
                proof {
                    lemma_deep_view_push(before, names, self.features@[i as int].name);
                    assert(self.features.deep_view()[i as int].name
                        == self.features@[i as int].name@);
                }
            }
            i += 1;
        }
        names
    }

    /// Whether at least one feature is selected.
    pub fn has_selection(&self) -> (any: bool)
        ensures
            any == (self@.chosen().len() > 0),
    {
        let mut i: usize = 0;
        while i < self.features.len() && i < self.selected.len()
            invariant
                i <= self.features.len(),
                forall|k: int| 0 <= k < i ==> !self@.is_selected(k),
            decreases self.features.len() - i,
        {
            if self.selected[i] {
                proof {
                    assert(self@.is_selected(i as int));
                    lemma_chosen_upto_empty(self@, self@.features.len());
                }
                return true;
            }
            i += 1;
        }
        proof {
            lemma_chosen_upto_empty(self@, self@.features.len());
        }
        false
    }

    /// Gives the program exactly one flag per feature: flags that are there
    /// stay, missing ones are added unset, surplus ones are dropped.
    pub fn repair_selection(&mut self)
        ensures
            final(self)@ == old(self)@.repaired(),
            final(self)@.wf(),
            final(self)@.chosen() == old(self)@.chosen(),
    {
        let wanted = self.features.len();
        if self.selected.len() > wanted {
            self.selected.truncate(wanted);
        }
        while self.selected.len() < wanted
            invariant
                wanted == self.features.len(),
                self.name == old(self).name,
                self.features == old(self).features,
                self.path == old(self).path,
                self.selected.len() <= wanted,
                self.selected.len() == wanted || old(self).selected.len() <= self.selected.len(),
                forall|k: int|
                    0 <= k < self.selected.len() ==> self.selected@[k] == old(self)@.is_selected(k),
            decreases wanted - self.selected.len(),
        {
            self.selected.push(false);
        }
        proof {
            assert(self@.selected =~= old(self)@.repaired().selected);
            lemma_repair_keeps_chosen(old(self)@, old(self)@.features.len());
        }
    }
}

/// A named snapshot of a selection: for each program that had a selected
/// feature, its name and the names of those features.
#[derive(Debug, PartialEq, Eq)]
pub struct Preset {
    pub name: String,
    pub programs: Vec<(String, Vec<String>)>,
}

/// What a [`Preset`] holds, as plain sequences.
pub struct PresetView {
    pub name: Seq<char>,
    pub programs: Seq<(Seq<char>, Seq<Seq<char>>)>,
}

impl View for Preset {
    type V = PresetView;

    open spec fn view(&self) -> PresetView {
        PresetView { name: self.name@, programs: self.programs.deep_view() }
    }
}

impl DeepView for Preset {
    type V = PresetView;

    open spec fn deep_view(&self) -> PresetView {
        self@
    }
}

/// Copies the entries of a preset.
pub fn copy_entries(entries: &Vec<(String, Vec<String>)>) -> (out: Vec<(String, Vec<String>)>)
    ensures
        out.deep_view() == entries.deep_view(),
{
    let mut out: Vec<(String, Vec<String>)> = Vec::new();
    let mut i: usize = 0;
    assert(out.deep_view() =~= entries.deep_view().take(0));
    while i < entries.len()
        invariant
            i <= entries.len(),
            out.deep_view() == entries.deep_view().take(i as int),
        decreases entries.len() - i,
    {
        let ghost before = out;
        out.push((entries[i].0.clone(), copy_texts(&entries[i].1)));
        proof {
            lemma_deep_view_push(before, out, out@.last());
            lemma_deep_view_take(*entries, i as int);
        }
        i += 1;
    }
    assert(entries.deep_view().take(i as int) =~= entries.deep_view());
    out
}

impl Clone for Preset {
    fn clone(&self) -> (out: Preset)
        ensures
            out@ == self@,
    {
        Preset { name: self.name.clone(), programs: copy_entries(&self.programs) }
    }
}

} // verus!
