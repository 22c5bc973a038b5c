//! Saving a selection under a name, and the collection of what was saved.

use vstd::prelude::*;
use vstd::string::StringExecFns;

use crate::invocation::{replay_call, replay_plan, selective_call, selective_plan};
use crate::model::{distinct_names, Preset, PresetView, Program, ProgramView};
use crate::reconcile::{lemma_position_is, program_names};
use crate::sequences::{
    lemma_deep_view_push, lemma_deep_view_take, lemma_filter_map_twice,
};
use crate::text::{join, join_with};

verus! {

/// The entry that a program contributes to a preset: none unless a feature
/// is selected, else its name with the names of the selected features.
pub open spec fn entry_of(program: ProgramView) -> Option<(Seq<char>, Seq<Seq<char>>)> {
    if program.chosen().len() > 0 {
        Some((program.name, program.chosen()))
    } else {
        None
    }
}

/// The entries of a preset taken from `programs`: one for each program with
/// a selected feature, in program order.
pub open spec fn entries_of(programs: Seq<ProgramView>) -> Seq<(Seq<char>, Seq<Seq<char>>)> {
    programs.filter_map(|p: ProgramView| entry_of(p))
}

/// The collection after a request to save the selection of `programs` as
/// `name`: unchanged where nothing is selected, else longer by the one new
/// preset, which stands last.
pub open spec fn saved(presets: Seq<PresetView>, name: Seq<char>, programs: Seq<ProgramView>) -> Seq<
    PresetView,
> {
    if entries_of(programs).len() > 0 {
        presets.push(PresetView { name, programs: entries_of(programs) })
    } else {
        presets
    }
}

/// Saving keeps every preset that is there. Where nothing is selected it
/// adds none; else it adds one, last, under the name given, and that preset
/// holds exactly the entries of the selection.
pub proof fn lemma_saved_holds_the_selection(
    presets: Seq<PresetView>,
    name: Seq<char>,
    programs: Seq<ProgramView>,
)
    ensures
        entries_of(programs).len() == 0 ==> saved(presets, name, programs) == presets,
        entries_of(programs).len() > 0 ==> {
            &&& saved(presets, name, programs).len() == presets.len() + 1
            &&& saved(presets, name, programs).drop_last() == presets
            &&& saved(presets, name, programs).last() == (PresetView {
                name,
                programs: entries_of(programs),
            })
        },
{
    if entries_of(programs).len() > 0 {
        assert(saved(presets, name, programs).drop_last() =~= presets);
    }
}

/// Every entry taken from a selection names at least one feature.
pub proof fn lemma_entries_have_features(programs: Seq<ProgramView>, at: int)
    requires
        0 <= at < entries_of(programs).len(),
    ensures
        entries_of(programs)[at].1.len() > 0,
    decreases programs.len(),
{
    if programs.len() > 0 {
        let front = programs.drop_last();
        match entry_of(programs.last()) {
            Some(entry) => {
                if at < entries_of(front).len() {
                    lemma_entries_have_features(front, at);
                }
            },
            None => {
                lemma_entries_have_features(front, at);
            },
        }
    }
}

/// What is saved can be replayed: for programs of different names, the
/// replay of a preset taken from them, against them, makes the calls that a
/// selective batch makes for them, whatever the preset is called.
pub proof fn lemma_saved_selection_replays(
    name: Seq<char>,
    programs: Seq<ProgramView>,
    output_dir: Option<Seq<char>>,
)
    requires
        distinct_names(programs),
    ensures
        replay_plan(
            PresetView { name, programs: entries_of(programs) },
            programs,
            output_dir,
        ) == selective_plan(programs, output_dir),
{
    let take = |p: ProgramView| entry_of(p);
    let replay = |e: (Seq<char>, Seq<Seq<char>>)| replay_call(e, programs, output_dir);
    let select = |p: ProgramView| selective_call(p, output_dir);
    assert forall|i: int| 0 <= i < programs.len() implies select(#[trigger] programs[i]) == match take(
        programs[i],
    ) {
        Some(e) => replay(e),
        None => None,
    } by {
        let names = program_names(programs);
        assert forall|k: int| 0 <= k < i implies names[k] != programs[i].name by {
            assert(names[k] == programs[k].name);
        }
        lemma_position_is(names, programs[i].name, i);
    }
    lemma_filter_map_twice(programs, take, replay, select);
}

/// What a request to save came to.
#[derive(Clone, Copy, Debug, PartialEq, Eq, Structural)]
pub enum SaveOutcome {
    /// A preset was added; the durable store is to be rewritten.
    Saved,
    /// No program has a selected feature: nothing was added, and nothing is
    /// to be written.
    NothingToSave,
}

/// Takes the entries of a preset from the current selection.
pub fn preset_entries(programs: &Vec<Program>) -> (entries: Vec<(String, Vec<String>)>)
    ensures
        entries.deep_view() == entries_of(programs.deep_view()),
{
    let ghost all = programs.deep_view();
    let ghost pick = |p: ProgramView| entry_of(p);
    let mut entries: Vec<(String, Vec<String>)> = Vec::new();
    let mut k: usize = 0;
    assert(entries.deep_view() =~= all.take(0).filter_map(pick));
    while k < programs.len()
        invariant
            k <= programs.len(),
            all == programs.deep_view(),
            pick == (|p: ProgramView| entry_of(p)),
            entries.deep_view() == all.take(k as int).filter_map(pick),
        decreases programs.len() - k,
    {
        proof {
            lemma_deep_view_take(*programs, k as int);
            all.lemma_filter_map_take_succ(pick, k as int);
        }
        let names = programs[k].selected_features();
        if names.len() > 0 {
            let ghost before = entries;
            let entry = (programs[k].name.clone(), names);
            entries.push(entry);
            proof {
                lemma_deep_view_push(before, entries, entry);
                assert(pick(all[k as int]) == Some(entry.deep_view()));
            }
        } else {
            assert(pick(all[k as int]) == None::<(Seq<char>, Seq<Seq<char>>)>);
        }
        k += 1;
    }
    assert(all.take(k as int) =~= all);
    entries
}

/// Saves the current selection as a preset called `name`. Where no program
/// has a selected feature the collection stays as it is and the answer says
/// so; else the new preset is added behind those that are there, whatever
/// their names.
pub fn save_preset(presets: &mut Vec<Preset>, name: &str, programs: &Vec<Program>) -> (outcome:
    SaveOutcome)
    ensures
        final(presets).deep_view() == saved(old(presets).deep_view(), name@, programs.deep_view()),
        outcome == SaveOutcome::NothingToSave <==> entries_of(programs.deep_view()).len() == 0,
        outcome == SaveOutcome::Saved <==> entries_of(programs.deep_view()).len() > 0,
{
    let entries = preset_entries(programs);
    if entries.len() == 0 {
        SaveOutcome::NothingToSave
    } else {
        let ghost before = *presets;
        let preset = Preset { name: name.to_owned(), programs: entries };
        presets.push(preset);
        proof {
            lemma_deep_view_push(before, *presets, preset);
        }
        SaveOutcome::Saved
    }
}

/// The collection to begin with, from what the durable store gave: what was
/// read, or nothing where it could not be read or understood.
pub fn restore(stored: Option<Vec<Preset>>) -> (presets: Vec<Preset>)
    ensures
        presets.deep_view() == match stored {
            Some(read) => read.deep_view(),
            None => Seq::empty(),
        },
{
    match stored {
        Some(read) => read,
        None => {
            let presets: Vec<Preset> = Vec::new();
            assert(presets.deep_view() =~= Seq::<PresetView>::empty());
            presets
        },
    }
}

/// The message that tells the operator that the durable store could not be
/// written.
pub open spec fn write_failure_line(reason: Seq<char>) -> Seq<char> {
    "Failed to save presets: "@ + reason
}

/// Words the message for a durable store that could not be written.
pub fn write_failure_message(reason: &str) -> (line: String)
    ensures
        line@ == write_failure_line(reason@),
{
    let mut line = "Failed to save presets: ".to_owned();
    line.append(reason);
    line
}

/// One line of a preset's description: the program alone where the entry
/// has no feature, else the program, a colon and the features.
pub open spec fn entry_line(entry: (Seq<char>, Seq<Seq<char>>)) -> Seq<char> {
    if entry.1.len() == 0 {
        entry.0
    } else {
        entry.0 + ": "@ + join(entry.1, ", "@)
    }
}

impl PresetView {
    /// What the preset holds, in words: a heading, then one line per entry.
    pub open spec fn description(self) -> Seq<char> {
        "Contains:\n"@ + join(
            self.programs.map_values(|e: (Seq<char>, Seq<Seq<char>>)| entry_line(e)),
            "\n"@,
        )
    }
}

impl Preset {
    /// Describes what the preset holds.
    pub fn describe(&self) -> (text: String)
        ensures
            text@ == self@.description(),
    {
        let ghost entries = self.programs.deep_view();
        let ghost wanted = entries.map_values(|e: (Seq<char>, Seq<Seq<char>>)| entry_line(e));
        let mut lines: Vec<String> = Vec::new();
        let mut k: usize = 0;
        assert(lines.deep_view() =~= wanted.take(0));
        while k < self.programs.len()
            invariant
                k <= self.programs.len(),
                entries == self.programs.deep_view(),
                wanted == entries.map_values(|e: (Seq<char>, Seq<Seq<char>>)| entry_line(e)),
                lines.deep_view() == wanted.take(k as int),
            decreases self.programs.len() - k,
        {
            let ghost before = lines;
            let mut line = self.programs[k].0.clone();
            if self.programs[k].1.len() > 0 {
                line.append(": ");
                let features = join_with(&self.programs[k].1, ", ");
                line.append(features.as_str());
            }
            lines.push(line);
            proof {
                lemma_deep_view_push(before, lines, line);
                lemma_deep_view_take(self.programs, k as int);
                assert(line@ == entry_line(entries[k as int]));
                assert(wanted.take(k + 1) =~= wanted.take(k as int).push(wanted[k as int]));
            }
            k += 1;
        }
        assert(wanted.take(k as int) =~= wanted);
        let mut text = "Contains:\n".to_owned();
        let body = join_with(&lines, "\n");
        text.append(body.as_str());
        text
    }
}

} // verus!
