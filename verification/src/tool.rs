//! The state that the operator works on: the programs and what is selected
//! in them, the saved presets, and the log of what the builds told.

use std::sync::mpsc::{Receiver, Sender};
use vstd::prelude::*;
use vstd::string::StringExecFns;

use crate::batch::{Batch, BatchView};
use crate::invocation::{full_plan, replay_plan, selective_plan};
use crate::model::{Preset, PresetView, Program, ProgramView};
use crate::reconcile::{reconcile, reconciled};
use crate::store::{save_preset, saved, SaveOutcome, entries_of};
use crate::sequences::{lemma_deep_view_push, lemma_deep_view_take};
use crate::text::{join, join_with};

verus! {

/// The receiving end of a channel of std.
#[verifier::external_type_specification]
#[verifier::external_body]
#[verifier::reject_recursive_types(T)]
pub struct ExReceiver<T>(Receiver<T>);

/// The sending end of a channel of std.
#[verifier::external_type_specification]
#[verifier::external_body]
#[verifier::reject_recursive_types(T)]
pub struct ExSender<T>(Sender<T>);

/// The state of the tool. `build_rx` is where the messages of running
/// batches arrive; `build_tx` is handed, cloned, to each batch's worker.
pub struct BuildTool {
    pub programs: Vec<Program>,
    pub selected_program: Option<usize>,
    pub build_output: String,
    pub build_rx: Receiver<String>,
    pub build_tx: Sender<String>,
    pub build_dir: Option<String>,
    pub presets: Vec<Preset>,
}

/// What a [`BuildTool`] holds, as plain values, with the two ends of its
/// channel as they are.
pub struct BuildToolView {
    pub programs: Seq<ProgramView>,
    pub selected_program: Option<usize>,
    pub build_output: Seq<char>,
    pub build_rx: Receiver<String>,
    pub build_tx: Sender<String>,
    pub build_dir: Option<Seq<char>>,
    pub presets: Seq<PresetView>,
}

impl BuildToolView {
    /// The index of the program in focus, where there is such a program.
    pub open spec fn focused(self) -> Option<int> {
        match self.selected_program {
            Some(index) => if index < self.programs.len() {
                Some(index as int)
            } else {
                None
            },
            None => None,
        }
    }
}

impl View for BuildTool {
    type V = BuildToolView;

    open spec fn view(&self) -> BuildToolView {
        BuildToolView {
            programs: self.programs.deep_view(),
            selected_program: self.selected_program,
            build_output: self.build_output@,
            build_rx: self.build_rx,
            build_tx: self.build_tx,
            build_dir: self.build_dir.deep_view(),
            presets: self.presets.deep_view(),
        }
    }
}

/// The log after `messages` arrived in this order: each is added behind
/// what is there, with a line break behind it.
pub open spec fn logged(log: Seq<char>, messages: Seq<Seq<char>>) -> Seq<char>
    decreases messages.len(),
{
    if messages.len() == 0 {
        log
    } else {
        logged(log, messages.drop_last()) + messages.last() + "\n"@
    }
}

/// One message more makes the log longer by that message and a line break.
pub proof fn lemma_logged_push(log: Seq<char>, messages: Seq<Seq<char>>, message: Seq<char>)
    ensures
        logged(log, messages.push(message)) == logged(log, messages) + message + "\n"@,
        logged(log, seq![message]) == log + message + "\n"@,
{
    assert(messages.push(message).drop_last() =~= messages);
    assert(seq![message].drop_last() =~= Seq::<Seq<char>>::empty());
    assert(logged(log, seq![message]) == logged(log, seq![message].drop_last()) + message + "\n"@);
    assert(logged(log, Seq::<Seq<char>>::empty()) == log);
}

/// One line of the preview: the program, a colon and its selected features.
pub open spec fn preview_line(program: ProgramView) -> Option<Seq<char>> {
    if program.chosen().len() > 0 {
        Some(program.name + ": "@ + join(program.chosen(), ", "@))
    } else {
        None
    }
}

/// What a selective build would build, in words: one line for each program
/// with a selected feature, or a notice that there is none.
pub open spec fn preview(programs: Seq<ProgramView>) -> Seq<char> {
    let lines = programs.filter_map(|p: ProgramView| preview_line(p));
    if lines.len() == 0 {
        "No programs selected for build."@
    } else {
        join(lines, "\n"@)
    }
}

/// Calls `Receiver::try_recv`, which never waits. Trusted: whether a message
/// is there depends on what was sent, so nothing is claimed of the answer;
/// `None` stands for a channel that is empty and for one that has hung up.
#[verifier::external_body]
fn try_receive(channel: &Receiver<String>) -> (message: Option<String>)
{
    channel.try_recv().ok()
}

impl BuildTool {
    /// Adds one message to the log, with a line break behind it.
    pub fn absorb(&mut self, message: &str)
        ensures
            final(self)@ == (BuildToolView {
                build_output: logged(old(self)@.build_output, seq![message@]),
                ..old(self)@
            }),
    {
        self.build_output.append(message);
        self.build_output.append("\n");
        proof {
            lemma_logged_push(old(self)@.build_output, Seq::empty(), message@);
        }
    }

    /// Takes what the running batches have told since the last call and adds
    /// it to the log, message by message in the order of arrival. Never
    /// waits: it ends as soon as no message is there, and in any case after
    /// `usize::MAX` messages.
    pub fn poll(&mut self)
        ensures
            exists|arrived: Seq<Seq<char>>|
                final(self)@ == (BuildToolView {
                    build_output: #[trigger] logged(old(self)@.build_output, arrived),
                    ..old(self)@
                }),
    {
        let ghost mut arrived: Seq<Seq<char>> = Seq::empty();
        let mut more = true;
        let mut budget: usize = usize::MAX;
        while more && budget > 0
            invariant
                self@ == (BuildToolView {
                    build_output: logged(old(self)@.build_output, arrived),
                    ..old(self)@
                }),
            decreases budget,
        {
            match try_receive(&self.build_rx) {
                Some(message) => {
                    let ghost before = self@.build_output;
                    self.absorb(message.as_str());
                    proof {
                        lemma_logged_push(before, Seq::empty(), message@);
                        lemma_logged_push(old(self)@.build_output, arrived, message@);
                        arrived = arrived.push(message@);
                    }
                },
                None => {
                    more = false;
                },
            }
            budget -= 1;
        }
    }

    /// Takes over a fresh scan: the programs are those of the scan, with the
    /// selection carried over by name, and no program is in focus.
    pub fn refresh(&mut self, scanned: Vec<Program>)
        ensures
            final(self)@ == (BuildToolView {
                programs: reconciled(old(self)@.programs, scanned.deep_view()),
                selected_program: None,
                ..old(self)@
            }),
    {
        let merged = reconcile(&self.programs, scanned);
        self.programs = merged;
        self.selected_program = None;
    }

    /// Puts program `index` in focus and gives it one flag per feature, so
    /// that its selection can be read and changed. Where there is no such
    /// program nothing changes.
    pub fn focus(&mut self, index: usize) -> (done: bool)
        ensures
            done == (index < old(self)@.programs.len()),
            done ==> final(self)@ == (BuildToolView {
                programs: old(self)@.programs.update(
                    index as int,
                    old(self)@.programs[index as int].repaired(),
                ),
                selected_program: Some(index),
                ..old(self)@
            }),
            !done ==> final(self)@ == old(self)@,
    {
        if index < self.programs.len() {
            let ghost before = self.programs;
            self.programs[index].repair_selection();
            self.selected_program = Some(index);
            proof {
                assert(self.programs.deep_view() =~= before.deep_view().update(
                    index as int,
                    before.deep_view()[index as int].repaired(),
                ));
            }
            true
        } else {
            false
        }
    }

    /// Sets or clears one flag of the program in focus, which is given one
    /// flag per feature first. Where no program is in focus, or it has no
    /// such feature, nothing changes.
    pub fn set_selected(&mut self, feature: usize, on: bool) -> (done: bool)
        ensures
            done == (old(self)@.focused() matches Some(index) && feature < old(
                self,
            )@.programs[index].features.len()),
            done ==> final(self)@ == (BuildToolView {
                programs: old(self)@.programs.update(
                    old(self)@.focused()->0,
                    old(self)@.programs[old(self)@.focused()->0].with_flag(feature as int, on),
                ),
                ..old(self)@
            }),
            !done ==> final(self)@ == old(self)@,
    {
        match self.selected_program {
            Some(index) => {
                if index < self.programs.len() && feature < self.programs[index].features.len() {
                    let ghost before = self.programs.deep_view();
                    self.programs[index].repair_selection();
                    self.programs[index].selected[feature] = on;
                    proof {
                        assert(self.programs.deep_view() =~= before.update(
                            index as int,
                            before[index as int].with_flag(feature as int, on),
                        ));
                    }
                    true
                } else {
                    false
                }
            },
            None => false,
        }
    }

    /// Clears the log and plans a batch that builds each program with a
    /// selected feature. The batch holds its own copy of what it needs: what
    /// is selected or scanned afterwards does not reach it.
    pub fn begin_selective(&mut self) -> (batch: Batch)
        ensures
            final(self)@ == (BuildToolView { build_output: Seq::empty(), ..old(self)@ }),
            batch@ == BatchView::fresh(selective_plan(old(self)@.programs, old(self)@.build_dir)),
    {
        self.build_output = String::new();
        Batch::selective(&self.programs, &self.build_dir)
    }

    /// Clears the log and plans a batch that builds every program, with the
    /// one fixed feature where `forced` is set.
    pub fn begin_everything(&mut self, forced: bool) -> (batch: Batch)
        ensures
            final(self)@ == (BuildToolView { build_output: Seq::empty(), ..old(self)@ }),
            batch@ == BatchView::fresh(
                full_plan(old(self)@.programs, forced, old(self)@.build_dir),
            ),
    {
        self.build_output = String::new();
        Batch::everything(&self.programs, forced, &self.build_dir)
    }

    /// Clears the log and plans the replay of the preset at `index`: of that
    /// very preset, whatever others are called. Where there is no such preset
    /// nothing changes and no batch is planned.
    pub fn begin_replay(&mut self, index: usize) -> (batch: Option<Batch>)
        ensures
            index < old(self)@.presets.len() ==> batch is Some && batch->0@ == BatchView::fresh(
                replay_plan(
                    old(self)@.presets[index as int],
                    old(self)@.programs,
                    old(self)@.build_dir,
                ),
            ) && final(self)@ == (BuildToolView { build_output: Seq::empty(), ..old(self)@ }),
            index >= old(self)@.presets.len() ==> batch is None && final(self)@ == old(self)@,
    {
        if index < self.presets.len() {
            self.build_output = String::new();
            Some(Batch::replay(&self.presets[index], &self.programs, &self.build_dir))
        } else {
            None
        }
    }

    /// Saves the current selection as a preset called `name`. Where nothing
    /// is selected nothing changes, and the answer says so.
    pub fn save_preset(&mut self, name: &str) -> (outcome: SaveOutcome)
        ensures
            final(self)@ == (BuildToolView {
                presets: saved(old(self)@.presets, name@, old(self)@.programs),
                ..old(self)@
            }),
            outcome == SaveOutcome::NothingToSave <==> entries_of(old(self)@.programs).len() == 0,
            outcome == SaveOutcome::Saved <==> entries_of(old(self)@.programs).len() > 0,
    {
        save_preset(&mut self.presets, name, &self.programs)
    }

    /// Says in words what a selective build would build.
    pub fn build_preview(&self) -> (text: String)
        ensures
            text@ == preview(self@.programs),
    {
        let ghost all = self.programs.deep_view();
        let ghost pick = |p: ProgramView| preview_line(p);
        let mut lines: Vec<String> = Vec::new();
        let mut k: usize = 0;
        assert(lines.deep_view() =~= all.take(0).filter_map(pick));
        while k < self.programs.len()
            invariant
                k <= self.programs.len(),
                all == self.programs.deep_view(),
                pick == (|p: ProgramView| preview_line(p)),
                lines.deep_view() == all.take(k as int).filter_map(pick),
            decreases self.programs.len() - k,
        {
            proof {
                lemma_deep_view_take(self.programs, k as int);
                all.lemma_filter_map_take_succ(pick, k as int);
            }
            let names = self.programs[k].selected_features();
            if names.len() > 0 {
                let ghost before = lines;
                let mut line = self.programs[k].name.clone();
                line.append(": ");
                let features = join_with(&names, ", ");
                line.append(features.as_str());
                lines.push(line);
                proof {
                    lemma_deep_view_push(before, lines, line);
                    assert(pick(all[k as int]) == Some(line@));
                }
            } else {
                assert(pick(all[k as int]) == None::<Seq<char>>);
            }
            k += 1;
        }
        assert(all.take(k as int) =~= all);
        if lines.len() == 0 {
            "No programs selected for build.".to_owned()
        } else {
            join_with(&lines, "\n")
        }
    }
}

} // verus!
